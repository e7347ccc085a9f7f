//! Definition-form annotation.
//!
//! A best-effort utility layer over the reader's [`Datum`] tree. It
//! recognizes definition forms (`defun`, `defmacro`, `cl-defun`,
//! `define-minor-mode`, project-local def-macros, …) and tags their parts
//! with [`Role`]s (name, arglist, docstring, body) so a consumer can locate a
//! definition's pieces without hard-coding every macro.
//!
//! Two pieces:
//! - a [`Registry`] of [`FormSpec`]s keyed by head symbol: start from the
//!   bundled per-dialect core ([`bundled_registry`]), extend with the
//!   harvester ([`harvest_source_for`]) and layer consumer-authored specs
//!   ([`FormSpec::define`]) on top;
//! - the annotator ([`annotate_form`] / [`annotate_tree`]), the
//!   dialect-agnostic mechanism that applies a spec to a form.
//!
//! It never expands or evaluates macros; it only interprets declared and
//! structural metadata.

#![verifier::loop_isolation(false)]

use vstd::prelude::*;
use vstd::string::*;

use crate::datum::{Datum, DatumKind, Delim, Prefix};
use crate::options::{bytes_equal, spec_dialect_options, Dialect, Options};
use crate::indent::{digits_value, lemma_digits_value_mono};
use crate::reader::{ascii_lower, data_wf, parse};
use crate::walk::{code_nodes, deref_seq, forest_code};
use crate::reading::{read_top, stream_of};
use crate::shape::shapes_of;

verus! {

/// The role of an argument within a definition form.
#[derive(Debug, Clone, Copy, PartialEq, Eq, Hash, Structural)]
#[non_exhaustive]
pub enum Role {
    /// The leading def-macro symbol itself (e.g. `defun`).
    Keyword,
    /// The defined name.
    Name,
    /// A method qualifier (`:around`, `:before`, user-defined) between the
    /// name and the arglist; a method may carry zero or more.
    Qualifier,
    /// Clojure `defmethod`'s single arbitrary dispatch datum (e.g.
    /// `:circle`).
    DispatchValue,
    /// A method's specialized arglist (`((x integer))`), whose required
    /// parameters split into `(variable, specializer)` pairs; see
    /// [`Annotated::specialized_params`].
    SpecializedArglist,
    /// The parameter list.
    Arglist,
    /// The documentation string.
    Docstring,
    /// A `(declare …)` form.
    Declare,
    /// An `(interactive …)` form.
    Interactive,
    /// A body form.
    Body,
    /// A fixed argument whose role could not be classified.
    Other,
}

/// An optional, normalized classification hint on a [`FormSpec`], attached
/// only where the mapping is uncontested.
#[derive(Debug, Clone, Copy, PartialEq, Eq, Hash, Structural)]
#[non_exhaustive]
pub enum Category {
    /// A function definition (`defun`, `defn`, CL `defun`).
    Function,
    /// A macro definition (`defmacro`, `define-syntax`).
    Macro,
    /// A variable/binding definition (`defvar`, `defparameter`).
    Variable,
    /// A constant definition (`defconstant`, `defconst`).
    Constant,
    /// A class definition (`defclass`).
    Class,
    /// A struct/record definition (`cl-defstruct`, `defrecord`, `deftype`).
    Struct,
    /// A generic-function definition (`defgeneric`, `defmulti`,
    /// `defprotocol`).
    Generic,
    /// A method definition (`defmethod`, `cl-defmethod`).
    Method,
    /// A type definition (`define-record-type`).
    Type,
    /// A test definition (`ert-deftest`, `deftest`).
    Test,
}

/// How confidently a [`FormSpec`] was determined — also a coarse provenance.
#[derive(Debug, Clone, Copy, PartialEq, Eq, Structural)]
#[non_exhaustive]
pub enum Confidence {
    /// A bundled spec for a standard form.
    Builtin,
    /// From an explicit `declare` (`debug (&define …)` or `doc-string N`).
    Declared,
    /// Inferred from the macro's own arglist parameter names.
    Inferred,
    /// From weak signals only (naming conventions).
    Weak,
    /// Supplied directly by the consumer via [`FormSpec::define`].
    Consumer,
}

/// How a dispatch/method form carries its dispatch signature, right after
/// the name.
#[derive(Debug, Clone, Copy, PartialEq, Eq, Hash, Structural)]
#[non_exhaustive]
pub enum Dispatch {
    /// CL/elisp/ISLisp style: zero or more [`Role::Qualifier`]s up to the
    /// first delimited list, which is the [`Role::SpecializedArglist`].
    Qualifiers,
    /// Clojure style: exactly one [`Role::DispatchValue`] datum, then a square
    /// [`Role::Arglist`] vector.
    Value,
}

/// Where a form's optional docstring sits, and when a string counts as one.
#[derive(Debug, Clone, Copy, PartialEq, Eq, Hash, Structural)]
#[non_exhaustive]
pub enum Docstring {
    /// The form has no positional docstring.
    Absent,
    /// A string right after the leading roles, only when at least one more
    /// form follows it — a lone trailing string is a value, not
    /// documentation.
    Leading,
    /// Like [`Docstring::Leading`], but a string that is the only form after
    /// the leading roles also counts (Emacs Lisp, Hy).
    LeadingOrLone,
}

/// A description of how to interpret a definition form's arguments.
#[derive(Debug, Clone, PartialEq)]
pub struct FormSpec {
    /// The head symbol this spec applies to, e.g. `"cl-defun"`.
    pub head: String,
    /// Roles for the fixed leading arguments (right after the head), in
    /// order — e.g. `[Name, Arglist]` for `defun`.
    pub leading: Vec<Role>,
    /// Where the optional docstring sits, if the form has one.
    pub docstring: Docstring,
    /// Whether the remaining arguments are body forms.
    pub body: bool,
    /// An optional normalized category hint. The verbatim head symbol is
    /// always the faithful classification.
    pub category: Option<Category>,
    /// For dispatch/method forms, how the dispatch signature after the name
    /// is read. `None` for ordinary def-forms.
    pub dispatch: Option<Dispatch>,
    /// How confidently this spec was determined.
    pub confidence: Confidence,
}

impl FormSpec {
    fn new(head: &str, leading: Vec<Role>, docstring: Docstring, body: bool, confidence: Confidence) -> (s: Self)
        ensures
            s.head@ == head@,
            s.leading == leading,
            s.docstring == docstring,
            s.body == body,
            s.category.is_none(),
            s.dispatch.is_none(),
            s.confidence == confidence,
    {
        FormSpec {
            head: head.to_owned(),
            leading,
            docstring,
            body,
            category: None,
            dispatch: None,
            confidence,
        }
    }

    /// Build a consumer-supplied definition-form spec, recorded with
    /// [`Confidence::Consumer`]; chain [`Self::with_category`] to add a hint.
    pub fn define(head: &str, leading: Vec<Role>, docstring: Docstring, body: bool) -> (s: Self)
        ensures
            s.head@ == head@,
            s.leading == leading,
            s.docstring == docstring,
            s.body == body,
            s.category.is_none(),
            s.dispatch.is_none(),
            s.confidence == Confidence::Consumer,
    {
        FormSpec::new(head, leading, docstring, body, Confidence::Consumer)
    }

    /// Attach a normalized [`Category`] hint (builder style).
    pub fn with_category(self, category: Category) -> (s: Self)
        ensures
            s == (FormSpec { category: Some(category), ..self }),
    {
        let mut s = self;
        s.category = Some(category);
        s
    }

    /// Mark this as a dispatch/method form with the given [`Dispatch`] shape
    /// (builder style).
    pub fn with_dispatch(self, dispatch: Dispatch) -> (s: Self)
        ensures
            s == (FormSpec { dispatch: Some(dispatch), ..self }),
    {
        let mut s = self;
        s.dispatch = Some(dispatch);
        s
    }
}

/// A set of [`FormSpec`]s keyed by head symbol.
#[derive(Debug, Clone)]
pub struct Registry {
    entries: Vec<FormSpec>,
}

/// The spec for head `k` among `entries` (the last one with that head).
pub open spec fn lookup_spec(entries: Seq<FormSpec>, k: Seq<char>) -> Option<FormSpec>
    decreases entries.len(),
{
    if entries.len() == 0 {
        None
    } else if entries.last().head@ == k {
        Some(entries.last())
    } else {
        lookup_spec(entries.drop_last(), k)
    }
}

/// No head occurs twice.
pub open spec fn heads_unique(entries: Seq<FormSpec>) -> bool {
    forall|i: int, j: int|
        0 <= i < j < entries.len() ==> (#[trigger] entries[i]).head@ != (#[trigger] entries[j]).head@
}

/// With unique heads, the spec for an entry's head is that entry.
proof fn lemma_spec_at(entries: Seq<FormSpec>, i: int)
    requires
        heads_unique(entries),
        0 <= i < entries.len(),
    ensures
        lookup_spec(entries, entries[i].head@) == Some(entries[i]),
    decreases entries.len(),
{
    if i < entries.len() - 1 {
        assert(entries[i].head@ != entries[entries.len() - 1].head@);
        let s = entries.drop_last();
        assert(s[i] == entries[i]);
        assert forall|a: int, b: int| 0 <= a < b < s.len() implies (#[trigger] s[a]).head@ != (
        #[trigger] s[b]).head@ by {
            assert(s[a] == entries[a] && s[b] == entries[b]);
        }
        lemma_spec_at(s, i);
    }
}

/// A head no entry has is absent.
proof fn lemma_spec_none(entries: Seq<FormSpec>, k: Seq<char>)
    requires
        forall|i: int| 0 <= i < entries.len() ==> (#[trigger] entries[i]).head@ != k,
    ensures
        lookup_spec(entries, k) is None,
    decreases entries.len(),
{
    if entries.len() > 0 {
        let s = entries.drop_last();
        assert forall|i: int| 0 <= i < s.len() implies (#[trigger] s[i]).head@ != k by {
            assert(s[i] == entries[i]);
        }
        lemma_spec_none(s, k);
    }
}

/// A present head belongs to some entry.
proof fn lemma_spec_some(entries: Seq<FormSpec>, k: Seq<char>)
    requires
        lookup_spec(entries, k) is Some,
    ensures
        exists|i: int| 0 <= i < entries.len() && (#[trigger] entries[i]).head@ == k,
    decreases entries.len(),
{
    if entries.last().head@ != k {
        let s = entries.drop_last();
        lemma_spec_some(s, k);
        let i = choose|i: int| 0 <= i < s.len() && (#[trigger] s[i]).head@ == k;
        assert(entries[i] == s[i]);
    } else {
        assert(entries[entries.len() - 1].head@ == k);
    }
}

/// The spec found for a head is filed under that head.
proof fn lemma_spec_head(entries: Seq<FormSpec>, k: Seq<char>)
    requires
        lookup_spec(entries, k) is Some,
    ensures
        lookup_spec(entries, k).unwrap().head@ == k,
    decreases entries.len(),
{
    if entries.last().head@ != k {
        lemma_spec_head(entries.drop_last(), k);
    }
}

/// With unique heads, the map has one key per entry.
proof fn lemma_specs_dom(entries: Seq<FormSpec>)
    requires
        heads_unique(entries),
    ensures
        specs_map(entries).dom().finite(),
        specs_map(entries).dom().len() == entries.len(),
    decreases entries.len(),
{
    if entries.len() == 0 {
        assert(specs_map(entries).dom() =~= Set::<Seq<char>>::empty());
    } else {
        let s = entries.drop_last();
        let h = entries.last().head@;
        assert forall|a: int, b: int| 0 <= a < b < s.len() implies (#[trigger] s[a]).head@ != (
        #[trigger] s[b]).head@ by {
            assert(s[a] == entries[a] && s[b] == entries[b]);
        }
        lemma_specs_dom(s);
        assert forall|i: int| 0 <= i < s.len() implies (#[trigger] s[i]).head@ != h by {
            assert(s[i] == entries[i]);
            assert(entries[i].head@ != entries[entries.len() - 1].head@);
        }
        lemma_spec_none(s, h);
        assert(specs_map(entries).dom() =~= specs_map(s).dom().insert(h));
    }
}

/// Specs as a map from their head symbols.
pub open spec fn specs_map(entries: Seq<FormSpec>) -> Map<Seq<char>, FormSpec> {
    Map::new(|k: Seq<char>| lookup_spec(entries, k) is Some, |k: Seq<char>| lookup_spec(entries, k).unwrap())
}

impl View for Registry {
    type V = Map<Seq<char>, FormSpec>;

    /// The registry as a map from head symbols to specs.
    closed spec fn view(&self) -> Map<Seq<char>, FormSpec> {
        specs_map(self.entries@)
    }
}

impl Registry {
    /// The registry's invariant: no head has two specs.
    pub closed spec fn wf(&self) -> bool {
        heads_unique(self.entries@)
    }

    /// The number of entries.
    pub closed spec fn size(&self) -> nat {
        self.entries@.len()
    }

    /// The view, key by key.
    proof fn lemma_view(&self, k: Seq<char>)
        ensures
            self@.contains_key(k) == (lookup_spec(self.entries@, k) is Some),
            self@.contains_key(k) ==> self@[k] == lookup_spec(self.entries@, k).unwrap(),
    {
    }

    /// Every spec of a registry is filed under its own head, and the
    /// registry's size is its number of heads.
    pub proof fn lemma_keyed_by_head(&self)
        requires
            self.wf(),
        ensures
            forall|k: Seq<char>| #[trigger] self@.contains_key(k) ==> self@[k].head@ == k,
            self@.dom().finite(),
            self.size() == self@.dom().len(),
    {
        assert forall|k: Seq<char>| #[trigger] self@.contains_key(k) implies self@[k].head@ == k by {
            lemma_spec_head(self.entries@, k);
        }
        lemma_specs_dom(self.entries@);
    }

    /// The index of the spec for `symbol`, if any.
    fn find(&self, symbol: &String) -> (r: Option<usize>)
        requires
            self.wf(),
        ensures
            match r {
                Some(i) => i < self.entries.len() && self.entries@[i as int].head@ == symbol@,
                None => forall|i: int|
                    0 <= i < self.entries.len() ==> (#[trigger] self.entries@[i]).head@ != symbol@,
            },
    {
        let mut i: usize = 0;
        while i < self.entries.len()
            invariant
                i <= self.entries.len(),
                forall|k: int| 0 <= k < i ==> (#[trigger] self.entries@[k]).head@ != symbol@,
            decreases self.entries.len() - i,
        {
            if self.entries[i].head == *symbol {
                return Some(i);
            }
            i = i + 1;
        }
        None
    }

    /// An empty registry.
    pub fn new() -> (t: Self)
        ensures
            t.wf(),
            t@ == Map::<Seq<char>, FormSpec>::empty(),
            t.size() == 0,
    {
        let t = Registry { entries: Vec::new() };
        assert(t@ =~= Map::<Seq<char>, FormSpec>::empty());
        t
    }

    /// Insert a spec, overwriting any existing entry for the same head.
    pub fn insert(&mut self, spec: FormSpec)
        requires
            old(self).wf(),
        ensures
            final(self).wf(),
            final(self)@ == old(self)@.insert(spec.head@, spec),
            final(self).size() == old(self).size() + if old(self)@.contains_key(spec.head@) {
                0int
            } else {
                1int
            },
    {
        let ghost old_entries = self.entries@;
        let ghost key = spec.head@;
        proof {
            self.lemma_view(key);
        }
        match self.find(&spec.head) {
            Some(i) => {
                proof {
                    lemma_spec_at(old_entries, i as int);
                }
                self.entries.set(i, spec);
                proof {
                    let e = self.entries@;
                    assert forall|a: int, b: int| 0 <= a < b < e.len() implies (#[trigger] e[a]).head@
                        != (#[trigger] e[b]).head@ by {
                        assert(old_entries[a].head@ != old_entries[b].head@);
                    }
                    assert forall|k: Seq<char>| #[trigger] lookup_spec(e, k) == if k == key {
                        Some(spec)
                    } else {
                        lookup_spec(old_entries, k)
                    } by {
                        if k == key {
                            lemma_spec_at(e, i as int);
                        } else if lookup_spec(old_entries, k) is Some {
                            lemma_spec_some(old_entries, k);
                            let j = choose|j: int|
                                0 <= j < old_entries.len() && (#[trigger] old_entries[j]).head@ == k;
                            lemma_spec_at(old_entries, j);
                            lemma_spec_at(e, j);
                        } else {
                            assert forall|j: int| 0 <= j < e.len() implies (#[trigger] e[j]).head@ != k by {
                                if j != i && e[j].head@ == k {
                                    lemma_spec_at(old_entries, j);
                                }
                            }
                            lemma_spec_none(e, k);
                        }
                    }
                    assert(self@ =~= old(self)@.insert(key, spec));
                }
            },
            None => {
                proof {
                    lemma_spec_none(old_entries, key);
                }
                self.entries.push(spec);
                proof {
                    let e = self.entries@;
                    assert(e.drop_last() =~= old_entries);
                    assert forall|a: int, b: int| 0 <= a < b < e.len() implies (#[trigger] e[a]).head@
                        != (#[trigger] e[b]).head@ by {
                        assert(e[a] == old_entries[a]);
                        if b < old_entries.len() {
                            assert(e[b] == old_entries[b]);
                        }
                    }
                    assert(self@ =~= old(self)@.insert(key, spec));
                }
            },
        }
    }

    /// The spec registered for `head`, if any.
    pub fn get(&self, symbol: &str) -> (r: Option<&FormSpec>)
        requires
            self.wf(),
        ensures
            match r {
                Some(s) => self@.contains_key(symbol@) && *s == self@[symbol@] && s.head@ == symbol@,
                None => !self@.contains_key(symbol@),
            },
    {
        proof {
            self.lemma_keyed_by_head();
        }
        let key = symbol.to_owned();
        proof {
            self.lemma_view(symbol@);
        }
        match self.find(&key) {
            Some(i) => {
                proof {
                    lemma_spec_at(self.entries@, i as int);
                }
                Some(&self.entries[i])
            },
            None => {
                proof {
                    lemma_spec_none(self.entries@, symbol@);
                }
                None
            },
        }
    }

    /// Remove and return the spec registered for `head`, if any.
    pub fn remove(&mut self, symbol: &str) -> (r: Option<FormSpec>)
        requires
            old(self).wf(),
        ensures
            final(self).wf(),
            final(self)@ == old(self)@.remove(symbol@),
            match r {
                Some(s) => old(self)@.contains_key(symbol@) && s == old(self)@[symbol@]
                    && final(self).size() == old(self).size() - 1,
                None => !old(self)@.contains_key(symbol@) && final(self).size() == old(self).size(),
            },
    {
        let key = symbol.to_owned();
        let ghost old_entries = self.entries@;
        proof {
            self.lemma_view(symbol@);
        }
        match self.find(&key) {
            Some(i) => {
                proof {
                    lemma_spec_at(old_entries, i as int);
                }
                let spec = self.entries.remove(i);
                proof {
                    let e = self.entries@;
                    assert(e =~= old_entries.remove(i as int));
                    assert forall|a: int, b: int| 0 <= a < b < e.len() implies (#[trigger] e[a]).head@
                        != (#[trigger] e[b]).head@ by {
                        let oa = if a < i { a } else { a + 1 };
                        let ob = if b < i { b } else { b + 1 };
                        assert(e[a] == old_entries[oa] && e[b] == old_entries[ob]);
                    }
                    assert forall|k: Seq<char>| #[trigger] lookup_spec(e, k) == if k == symbol@ {
                        None
                    } else {
                        lookup_spec(old_entries, k)
                    } by {
                        if k == symbol@ {
                            assert forall|j: int| 0 <= j < e.len() implies (#[trigger] e[j]).head@ != k by {
                                let oj = if j < i { j } else { j + 1 };
                                assert(e[j] == old_entries[oj]);
                            }
                            lemma_spec_none(e, k);
                        } else if lookup_spec(old_entries, k) is Some {
                            lemma_spec_some(old_entries, k);
                            let j = choose|j: int|
                                0 <= j < old_entries.len() && (#[trigger] old_entries[j]).head@ == k;
                            lemma_spec_at(old_entries, j);
                            let nj = if j < i { j } else { j - 1 };
                            assert(e[nj] == old_entries[j]);
                            lemma_spec_at(e, nj);
                        } else {
                            assert forall|j: int| 0 <= j < e.len() implies (#[trigger] e[j]).head@ != k by {
                                let oj = if j < i { j } else { j + 1 };
                                assert(e[j] == old_entries[oj]);
                                if e[j].head@ == k {
                                    lemma_spec_at(old_entries, oj);
                                }
                            }
                            lemma_spec_none(e, k);
                        }
                    }
                    assert(self@ =~= old(self)@.remove(symbol@));
                }
                Some(spec)
            },
            None => {
                proof {
                    lemma_spec_none(old_entries, symbol@);
                    assert(self@ =~= old(self)@.remove(symbol@));
                }
                None
            },
        }
    }

    /// Merge `other` into `self`; on a symbol collision, `other`'s spec wins.
    pub fn merge(&mut self, other: Registry)
        requires
            old(self).wf(),
            other.wf(),
        ensures
            final(self).wf(),
            final(self)@ == old(self)@.union_prefer_right(other@),
            final(self).size() == old(self)@.dom().union(other@.dom()).len(),
    {
        let mut rest = other.entries;
        let ghost all = rest@;
        let ghost n = all.len();
        while rest.len() > 0
            invariant
                self.wf(),
                rest.len() <= n,
                rest@ == all.skip(n - rest.len()),
                self@ == old(self)@.union_prefer_right(specs_map(all.take(n - rest.len()))),
            decreases rest.len(),
        {
            let ghost k = n - rest.len();
            let spec = rest.remove(0);
            proof {
                assert(spec == all[k]);
                assert(rest@ =~= all.skip(k + 1));
                let t = all.take(k + 1);
                assert(t.drop_last() =~= all.take(k));
                assert(t.last() == all[k]);
                assert(specs_map(t) =~= specs_map(all.take(k)).insert(spec.head@, spec));
            }
            self.insert(spec);
            proof {
                assert(self@ =~= old(self)@.union_prefer_right(specs_map(all.take(k + 1))));
            }
        }
        proof {
            assert(all.take(n as int) =~= all);
            self.lemma_keyed_by_head();
            assert(self@.dom() =~= old(self)@.dom().union(other@.dom()));
        }
    }

    /// Insert each of `specs` in order; a later spec for a head replaces an
    /// earlier one.
    pub fn extend(&mut self, specs: Vec<FormSpec>)
        requires
            old(self).wf(),
        ensures
            final(self).wf(),
            final(self)@ == old(self)@.union_prefer_right(specs_map(specs@)),
    {
        let mut rest = specs;
        let ghost all = rest@;
        let ghost n = all.len();
        while rest.len() > 0
            invariant
                self.wf(),
                rest.len() <= n,
                rest@ == all.skip(n - rest.len()),
                self@ == old(self)@.union_prefer_right(specs_map(all.take(n - rest.len()))),
            decreases rest.len(),
        {
            let ghost k = n - rest.len();
            let spec = rest.remove(0);
            proof {
                assert(spec == all[k]);
                assert(rest@ =~= all.skip(k + 1));
                let t = all.take(k + 1);
                assert(t.drop_last() =~= all.take(k));
                assert(t.last() == all[k]);
                assert(specs_map(t) =~= specs_map(all.take(k)).insert(spec.head@, spec));
            }
            self.insert(spec);
            proof {
                assert(self@ =~= old(self)@.union_prefer_right(specs_map(all.take(k + 1))));
            }
        }
        proof {
            assert(all.take(n as int) =~= all);
        }
    }

    /// A registry of `specs`, inserted in order; a later spec for a head
    /// replaces an earlier one.
    pub fn from_iter(specs: Vec<FormSpec>) -> (r: Registry)
        ensures
            r.wf(),
            r@ == specs_map(specs@),
    {
        let mut r = Registry::new();
        r.extend(specs);
        assert(r@ =~= specs_map(specs@));
        r
    }

    /// The number of entries.
    pub fn len(&self) -> (n: usize)
        ensures
            n == self.size(),
            self.wf() ==> n == self@.dom().len(),
    {
        proof {
            if self.wf() {
                self.lemma_keyed_by_head();
            }
        }
        self.entries.len()
    }

    /// Whether the table is empty.
    pub fn is_empty(&self) -> (b: bool)
        requires
            self.wf(),
        ensures
            b == (self@ == Map::<Seq<char>, FormSpec>::empty()),
            b == (self.size() == 0),
    {
        proof {
            if self.entries.len() > 0 {
                lemma_spec_at(self.entries@, 0);
                self.lemma_view(self.entries@[0].head@);
                assert(self@.contains_key(self.entries@[0].head@));
            } else {
                assert(self@ =~= Map::<Seq<char>, FormSpec>::empty());
            }
        }
        self.entries.len() == 0
    }

    /// Every registered spec, each once.
    pub fn iter(&self) -> (v: Vec<&FormSpec>)
        requires
            self.wf(),
        ensures
            v.len() == self.size(),
            forall|i: int|
                0 <= i < v.len() ==> self@.contains_key((#[trigger] v@[i]).head@) && *v@[i]
                    == self@[v@[i].head@],
            forall|i: int, j: int|
                0 <= i < j < v.len() ==> (#[trigger] v@[i]).head@ != (#[trigger] v@[j]).head@,
            forall|k: Seq<char>|
                #[trigger] self@.contains_key(k) ==> exists|i: int| 0 <= i < v.len() && (#[trigger] v@[i]).head@ == k,
    {
        let mut v: Vec<&FormSpec> = Vec::new();
        let mut i: usize = 0;
        while i < self.entries.len()
            invariant
                i <= self.entries.len(),
                v.len() == i,
                forall|k: int| 0 <= k < i ==> *(#[trigger] v@[k]) == self.entries@[k],
            decreases self.entries.len() - i,
        {
            v.push(&self.entries[i]);
            i = i + 1;
        }
        proof {
            assert forall|i: int| 0 <= i < v.len() implies self@.contains_key((#[trigger] v@[i]).head@)
                && *v@[i] == self@[v@[i].head@] by {
                lemma_spec_at(self.entries@, i);
                self.lemma_view(v@[i].head@);
            }
            assert forall|i: int, j: int| 0 <= i < j < v.len() implies (#[trigger] v@[i]).head@ != (
            #[trigger] v@[j]).head@ by {
                assert(self.entries@[i].head@ != self.entries@[j].head@);
            }
            assert forall|k: Seq<char>| #[trigger] self@.contains_key(k) implies exists|i: int|
                0 <= i < v.len() && (#[trigger] v@[i]).head@ == k by {
                self.lemma_view(k);
                lemma_spec_some(self.entries@, k);
                let i = choose|i: int| 0 <= i < self.entries@.len() && (#[trigger] self.entries@[i]).head@ == k;
                assert(v@[i].head@ == k);
            }
        }
        v
    }
}


/// One role-tagged child of an annotated form.
#[derive(Debug)]
pub struct Part<'a, 't> {
    /// The role this child plays in the definition form.
    pub role: Role,
    /// The child datum.
    pub datum: &'a Datum<'t>,
}

/// An annotated definition form.
#[derive(Debug)]
pub struct Annotated<'a, 't> {
    /// The annotated form itself — its span is the definition's full extent.
    pub form: &'a Datum<'t>,
    /// The head symbol (the def-macro name), verbatim.
    pub head: &'t str,
    /// The role-tagged children, including the leading `Keyword`.
    pub parts: Vec<Part<'a, 't>>,
    /// The normalized [`Category`] hint of the spec used, if any.
    pub category: Option<Category>,
    /// Confidence of the spec used.
    pub confidence: Confidence,
}

/// A required parameter of a specialized arglist, split into its variable
/// token and optional specializer.
#[derive(Debug)]
pub struct SpecializedParam<'a, 't> {
    /// The parameter variable — a symbol datum such as `x`.
    pub variable: &'a Datum<'t>,
    /// The specializer datum, if the parameter was specialized: a symbol for
    /// `(x integer)`, a list for `(x (eql form))`; `None` for a bare symbol.
    pub specializer: Option<&'a Datum<'t>>,
}

/// A datum can be a defined name: a symbol, or a round list whose first item
/// is a symbol (a CL `(setf foo)` function name).
pub open spec fn name_shaped(d: Datum) -> bool {
    match d.kind {
        DatumKind::Symbol(_) => true,
        DatumKind::List { delim: Delim::Round, items, .. } => items.len() > 0 && items@[0].kind is Symbol,
        _ => false,
    }
}

/// The end of the run of non-list items of `items` starting at `i`.
pub open spec fn qualifier_end(items: Seq<Datum>, i: int) -> int
    decreases items.len() - i,
{
    if 0 <= i < items.len() && !(items[i].kind is List) {
        qualifier_end(items, i + 1)
    } else {
        i
    }
}

pub open spec fn declare_name() -> Seq<u8> {
    seq![100u8, 101, 99, 108, 97, 114, 101]
}

pub open spec fn interactive_name() -> Seq<u8> {
    seq![105u8, 110, 116, 101, 114, 97, 99, 116, 105, 118, 101]
}

/// The role of a body form: a `(declare …)` or `(interactive …)` list, or
/// plain body.
pub open spec fn body_role(d: Datum) -> Role {
    match d.spec_head_symbol() {
        Some(h) => if h.spec_bytes() == declare_name() {
            Role::Declare
        } else if h.spec_bytes() == interactive_name() {
            Role::Interactive
        } else {
            Role::Body
        },
        None => Role::Body,
    }
}

/// The roles of a dispatch signature starting at item `i`, and where it
/// ends.
pub open spec fn dispatch_roles(items: Seq<Datum>, dispatch: Option<Dispatch>, i: int) -> (Seq<Role>, int) {
    match dispatch {
        None => (Seq::empty(), i),
        Some(Dispatch::Qualifiers) => {
            let q = qualifier_end(items, i);
            let quals = Seq::new((q - i) as nat, |k: int| Role::Qualifier);
            if q < items.len() {
                (quals.push(Role::SpecializedArglist), q + 1)
            } else {
                (quals, q)
            }
        },
        Some(Dispatch::Value) => if i < items.len() {
            if i + 1 < items.len() && items[i + 1].kind matches DatumKind::List { delim: Delim::Square, .. } {
                (seq![Role::DispatchValue, Role::Arglist], i + 2)
            } else {
                (seq![Role::DispatchValue], i + 1)
            }
        } else {
            (Seq::empty(), i)
        },
    }
}

/// Whether item `i` is the docstring under placement policy `doc`.
pub open spec fn doc_accepted(items: Seq<Datum>, doc: Docstring, i: int) -> bool {
    &&& i < items.len()
    &&& items[i].kind is Str
    &&& match doc {
        Docstring::Absent => false,
        Docstring::Leading => i + 1 < items.len(),
        Docstring::LeadingOrLone => true,
    }
}

/// The number of leading roles that apply to a form with `len` items.
pub open spec fn leading_count(spec: FormSpec, len: int) -> int {
    if spec.leading@.len() < len - 1 {
        spec.leading@.len() as int
    } else {
        len - 1
    }
}

/// The roles `spec` gives the items of a form headed by its symbol, in
/// order: the keyword; the leading roles (the form is no definition when a
/// `Name` slot holds something that cannot be a name); the dispatch
/// signature; the docstring where the policy accepts one; then, when the
/// spec has a body, each remaining form as `Declare`, `Interactive` or
/// `Body`.
pub open spec fn spec_roles(items: Seq<Datum>, spec: FormSpec) -> Option<Seq<Role>> {
    let n = leading_count(spec, items.len() as int);
    if exists|j: int| 0 <= j < n && spec.leading@[j] == Role::Name && !name_shaped(#[trigger] items[1 + j]) {
        None
    } else {
        let r0 = seq![Role::Keyword] + spec.leading@.take(n);
        let (r1, i1) = dispatch_roles(items, spec.dispatch, 1 + n);
        let acc = doc_accepted(items, spec.docstring, i1);
        let r2: Seq<Role> = if acc {
            seq![Role::Docstring]
        } else {
            Seq::empty()
        };
        let i2 = if acc {
            i1 + 1
        } else {
            i1
        };
        let r3 = if spec.body {
            items.skip(i2).map_values(|d: Datum| body_role(d))
        } else {
            Seq::empty()
        };
        Some(r0 + r1 + r2 + r3)
    }
}

/// The items of a list datum.
pub open spec fn list_items<'t>(d: Datum<'t>) -> Seq<Datum<'t>> {
    match d.kind {
        DatumKind::List { items, .. } => items@,
        _ => Seq::empty(),
    }
}

/// Whether `reg` annotates `d`: a list headed by a registered symbol whose
/// spec accepts it.
pub open spec fn annotates(d: Datum, reg: Map<Seq<char>, FormSpec>) -> bool {
    &&& d.kind is List
    &&& d.spec_head_symbol() matches Some(h) && reg.contains_key(h@) && spec_roles(
        list_items(d),
        reg[h@],
    ) is Some
}

/// `a` is the annotation of its form under `reg`: its head is the form's
/// head symbol, its parts are the form's first items in order with the roles
/// [`spec_roles`] gives, and its category and confidence are the spec's.
pub open spec fn annotation_of(a: Annotated, reg: Map<Seq<char>, FormSpec>) -> bool {
    let items = list_items(*a.form);
    &&& annotates(*a.form, reg)
    &&& a.form.spec_head_symbol() == Some(a.head)
    &&& spec_roles(items, reg[a.head@]) == Some(a.parts@.map_values(|p: Part| p.role))
    &&& a.parts.len() <= items.len()
    &&& forall|j: int| 0 <= j < a.parts.len() ==> *(#[trigger] a.parts@[j]).datum == items[j]
    &&& a.category == reg[a.head@].category
    &&& a.confidence == reg[a.head@].confidence
}

/// Whether a datum can be a defined name.
fn is_name_shaped(datum: &Datum) -> (b: bool)
    ensures
        b == name_shaped(*datum),
{
    match &datum.kind {
        DatumKind::Symbol(_) => true,
        DatumKind::List { delim: Delim::Round, items, .. } => items.len() > 0 && match items[0].kind {
            DatumKind::Symbol(_) => true,
            _ => false,
        },
        _ => false,
    }
}

/// The role of a body form.
fn body_role_of(d: &Datum) -> (r: Role)
    ensures
        r == body_role(*d),
{
    let declare: [u8; 7] = [100, 101, 99, 108, 97, 114, 101];
    let interactive: [u8; 11] = [105, 110, 116, 101, 114, 97, 99, 116, 105, 118, 101];
    assert(declare@ =~= declare_name());
    assert(interactive@ =~= interactive_name());
    match d.head_symbol() {
        Some(h) => if bytes_equal(h.as_bytes(), declare.as_slice()) {
            Role::Declare
        } else if bytes_equal(h.as_bytes(), interactive.as_slice()) {
            Role::Interactive
        } else {
            Role::Body
        },
        None => Role::Body,
    }
}

/// The roles of `parts`.
pub open spec fn part_roles(parts: Seq<Part>) -> Seq<Role> {
    parts.map_values(|p: Part| p.role)
}

/// Push `items[i]` with `role`.
fn push_part<'a, 't>(parts: &mut Vec<Part<'a, 't>>, role: Role, items: &'a Vec<Datum<'t>>, i: usize)
    requires
        i < items.len(),
        old(parts).len() == i,
        forall|j: int| 0 <= j < old(parts).len() ==> *(#[trigger] old(parts)@[j]).datum == items@[j],
    ensures
        final(parts).len() == i + 1,
        part_roles(final(parts)@) == part_roles(old(parts)@).push(role),
        forall|j: int| 0 <= j < final(parts).len() ==> *(#[trigger] final(parts)@[j]).datum == items@[j],
{
    parts.push(Part { role, datum: &items[i] });
    proof {
        assert(part_roles(parts@) =~= part_roles(old(parts)@).push(role));
    }
}

/// Annotate a single form if its head is a known definition form.
pub fn annotate_form<'a, 't>(form: &'a Datum<'t>, reg: &Registry) -> (r: Option<Annotated<'a, 't>>)
    requires
        reg.wf(),
    ensures
        match r {
            Some(a) => a.form == form && annotation_of(a, reg@),
            None => !annotates(*form, reg@),
        },
{
    let items = match &form.kind {
        DatumKind::List { items, .. } => items,
        _ => {
            return None;
        },
    };
    if items.len() == 0 {
        return None;
    }
    let head = match items[0].kind {
        DatumKind::Symbol(s) => s,
        _ => {
            return None;
        },
    };
    let spec = match reg.get(head) {
        Some(s) => s,
        None => {
            return None;
        },
    };
    let ghost sp = *spec;
    let ghost its = items@;
    let ghost n = leading_count(sp, its.len() as int);
    let mut parts: Vec<Part<'a, 't>> = Vec::new();
    push_part(&mut parts, Role::Keyword, items, 0);
    let mut i: usize = 1;
    let mut k: usize = 0;
    while k < spec.leading.len() && i < items.len()
        invariant
            i == 1 + k,
            k <= n,
            parts.len() == i,
            part_roles(parts@) == seq![Role::Keyword] + sp.leading@.take(k as int),
            forall|j: int| 0 <= j < parts.len() ==> *(#[trigger] parts@[j]).datum == items@[j],
            forall|j: int|
                0 <= j < k ==> (sp.leading@[j] == Role::Name ==> name_shaped(#[trigger] its[1 + j])),
        decreases spec.leading.len() - k,
    {
        let role = spec.leading[k];
        // A `Name` slot must hold a symbol or a `(setf foo)`-style list;
        // anything else means this instance is no named definition.
        if role == Role::Name && !is_name_shaped(&items[i]) {
            assert(!(spec_roles(its, sp) is Some));
            return None;
        }
        push_part(&mut parts, role, items, i);
        proof {
            assert(sp.leading@.take(k + 1) =~= sp.leading@.take(k as int).push(role));
        }
        i = i + 1;
        k = k + 1;
    }
    assert(k == n);
    assert(!exists|j: int| 0 <= j < n && sp.leading@[j] == Role::Name && !name_shaped(#[trigger] its[1 + j]));
    let i = push_dispatch(&mut parts, items, spec.dispatch, i);
    let ghost (r1, i1) = dispatch_roles(its, sp.dispatch, 1 + n);
    push_rest(&mut parts, items, spec.docstring, spec.body, i);
    let a = Annotated { form, head, parts, category: spec.category, confidence: spec.confidence };
    Some(a)
}

/// Push the dispatch signature's parts from item `i`; where it ends.
fn push_dispatch<'a, 't>(parts: &mut Vec<Part<'a, 't>>, items: &'a Vec<Datum<'t>>, dispatch: Option<Dispatch>, i: usize) -> (e: usize)
    requires
        1 <= i <= items.len(),
        old(parts).len() == i,
        forall|j: int| 0 <= j < old(parts).len() ==> *(#[trigger] old(parts)@[j]).datum == items@[j],
    ensures
        ({
            let (r1, i1) = dispatch_roles(items@, dispatch, i as int);
            &&& e == i1
            &&& part_roles(final(parts)@) == part_roles(old(parts)@) + r1
        }),
        e <= items.len(),
        final(parts).len() == e,
        forall|j: int| 0 <= j < final(parts).len() ==> *(#[trigger] final(parts)@[j]).datum == items@[j],
{
    let ghost its = items@;
    let ghost r0 = part_roles(parts@);
    let ghost i0 = i;
    let mut i = i;
    match dispatch {
        Some(Dispatch::Qualifiers) => {
            // Qualifiers up to the first delimited list, which is the
            // specialized arglist (token shape only).
            while i < items.len() && !is_list_datum(&items[i])
                invariant
                    i0 <= i <= items.len(),
                    parts.len() == i,
                    part_roles(parts@) == r0 + Seq::new((i - i0) as nat, |q: int| Role::Qualifier),
                    forall|j: int| 0 <= j < parts.len() ==> *(#[trigger] parts@[j]).datum == items@[j],
                    qualifier_end(its, i0 as int) == qualifier_end(its, i as int),
                decreases items.len() - i,
            {
                push_part(parts, Role::Qualifier, items, i);
                proof {
                    assert(r0 + Seq::new((i + 1 - i0) as nat, |q: int| Role::Qualifier) =~= (r0 + Seq::new(
                        (i - i0) as nat,
                        |q: int| Role::Qualifier,
                    )).push(Role::Qualifier));
                }
                i = i + 1;
            }
            if i < items.len() {
                push_part(parts, Role::SpecializedArglist, items, i);
                i = i + 1;
            }
        },
        Some(Dispatch::Value) => {
            // Exactly one dispatch datum, then a square arglist vector.
            if i < items.len() {
                push_part(parts, Role::DispatchValue, items, i);
                i = i + 1;
                if i < items.len() && is_square(&items[i]) {
                    push_part(parts, Role::Arglist, items, i);
                    i = i + 1;
                }
            }
        },
        None => {},
    }
    proof {
        let (r1, i1) = dispatch_roles(its, dispatch, i0 as int);
        assert(part_roles(parts@) =~= r0 + r1);
    }
    i
}

/// Push the optional docstring (per `doc`) and, for a spec with a body, each
/// remaining form, from item `i`.
fn push_rest<'a, 't>(parts: &mut Vec<Part<'a, 't>>, items: &'a Vec<Datum<'t>>, doc: Docstring, body: bool, i: usize)
    requires
        i <= items.len(),
        old(parts).len() == i,
        forall|j: int| 0 <= j < old(parts).len() ==> *(#[trigger] old(parts)@[j]).datum == items@[j],
    ensures
        ({
            let acc = doc_accepted(items@, doc, i as int);
            let r2: Seq<Role> = if acc {
                seq![Role::Docstring]
            } else {
                Seq::empty()
            };
            let i2 = if acc {
                i + 1
            } else {
                i as int
            };
            let r3 = if body {
                items@.skip(i2).map_values(|d: Datum| body_role(d))
            } else {
                Seq::empty()
            };
            part_roles(final(parts)@) == part_roles(old(parts)@) + r2 + r3
        }),
        final(parts).len() <= items.len(),
        forall|j: int| 0 <= j < final(parts).len() ==> *(#[trigger] final(parts)@[j]).datum == items@[j],
{
    let ghost its = items@;
    let ghost r1 = part_roles(parts@);
    let mut i = i;
    if i < items.len() {
        let is_str = match items[i].kind {
            DatumKind::Str(_) => true,
            _ => false,
        };
        let accepted = match doc {
            Docstring::Absent => false,
            Docstring::Leading => is_str && i + 1 < items.len(),
            Docstring::LeadingOrLone => is_str,
        };
        if accepted {
            push_part(parts, Role::Docstring, items, i);
            i = i + 1;
        }
    }
    let ghost i2 = i;
    let ghost r2 = part_roles(parts@);
    if body {
        while i < items.len()
            invariant
                i2 <= i <= items.len(),
                parts.len() == i,
                part_roles(parts@) == r2 + its.subrange(i2 as int, i as int).map_values(|d: Datum| body_role(d)),
                forall|j: int| 0 <= j < parts.len() ==> *(#[trigger] parts@[j]).datum == items@[j],
            decreases items.len() - i,
        {
            let role = body_role_of(&items[i]);
            push_part(parts, role, items, i);
            proof {
                assert(its.subrange(i2 as int, i + 1).map_values(|d: Datum| body_role(d)) =~= its.subrange(
                    i2 as int,
                    i as int,
                ).map_values(|d: Datum| body_role(d)).push(role));
            }
            i = i + 1;
        }
        assert(its.subrange(i2 as int, items.len() as int) =~= its.skip(i2 as int));
    }
}

fn is_list_datum(d: &Datum) -> (b: bool)
    ensures
        b == (d.kind is List),
{
    match d.kind {
        DatumKind::List { .. } => true,
        _ => false,
    }
}

fn is_square(d: &Datum) -> (b: bool)
    ensures
        b == (d.kind matches DatumKind::List { delim: Delim::Square, .. }),
{
    match d.kind {
        DatumKind::List { delim: Delim::Square, .. } => true,
        _ => false,
    }
}

/// The members of `s` that `reg` annotates, in order.
pub open spec fn annotated_of<'t>(s: Seq<Datum<'t>>, reg: Map<Seq<char>, FormSpec>) -> Seq<Datum<'t>>
    decreases s.len(),
{
    if s.len() == 0 {
        Seq::empty()
    } else {
        annotated_of(s.drop_last(), reg) + if annotates(s.last(), reg) {
            seq![s.last()]
        } else {
            Seq::empty()
        }
    }
}

/// The forms of a list of annotations.
pub open spec fn annotated_forms<'a, 't>(v: Seq<Annotated<'a, 't>>) -> Seq<Datum<'t>> {
    v.map_values(|a: Annotated<'a, 't>| *a.form)
}

/// A quoted form is never annotated, nor is anything inside it, even a
/// definition under an unquote: `annotate_tree` of `'(…)` finds nothing.
pub proof fn lemma_quoted_never_annotated<'t>(q: Datum<'t>, reg: Map<Seq<char>, FormSpec>)
    requires
        q.kind matches DatumKind::Prefixed { prefix: Prefix::Quote, arg: None, .. },
    ensures
        annotated_of(forest_code(seq![q]), reg) == Seq::<Datum<'t>>::empty(),
{
    crate::walk::lemma_quote_seals(q);
    assert(seq![q].drop_last() =~= Seq::<Datum<'t>>::empty());
    assert(seq![q].last() == q);
    assert(!annotates(q, reg));
    assert(annotated_of(Seq::<Datum<'t>>::empty(), reg) == Seq::<Datum<'t>>::empty());
}

/// Annotate every definition form that stands in code position in `data`,
/// in source order (outer forms before the inner forms they contain).
///
/// Descent follows the code-vs-data classification of [`code_nodes`]: a
/// form guarded by a feature conditional is reached, a quoted form or a
/// quasiquote template is not, and an unquoted form inside a template is.
pub fn annotate_tree<'a, 't>(data: &'a [Datum<'t>], reg: &Registry) -> (v: Vec<Annotated<'a, 't>>)
    requires
        reg.wf(),
    ensures
        annotated_forms(v@) == annotated_of(forest_code(data@), reg@),
        forall|i: int| 0 <= i < v.len() ==> annotation_of(#[trigger] v@[i], reg@),
{
    let mut out: Vec<Annotated<'a, 't>> = Vec::new();
    let mut nodes = code_nodes(data);
    let ghost all = nodes.remaining();
    let ghost mut k: int = 0;
    loop
        invariant
            nodes.wf(),
            reg.wf(),
            all == forest_code(data@),
            0 <= k <= all.len(),
            nodes.remaining() == all.skip(k),
            annotated_forms(out@) == annotated_of(all.take(k), reg@),
            forall|j: int| 0 <= j < out.len() ==> annotation_of(#[trigger] out@[j], reg@),
        decreases all.len() - k,
    {
        match nodes.next() {
            Some(d) => {
                proof {
                    assert(all.take(k + 1).drop_last() =~= all.take(k));
                    assert(all.skip(k).drop_first() =~= all.skip(k + 1));
                }
                let ghost before = out@;
                match annotate_form(d, reg) {
                    Some(a) => {
                        out.push(a);
                        assert(annotated_forms(out@) =~= annotated_forms(before).push(*d));
                    },
                    None => {
                        assert(annotated_forms(out@) =~= annotated_forms(before));
                    },
                }
                proof {
                    k = k + 1;
                }
            },
            None => {
                assert(all.take(k) =~= all);
                break;
            },
        }
    }
    out
}

/// The datum of the first part of `parts` that has `role`.
pub open spec fn first_with_role<'a, 't>(parts: Seq<Part<'a, 't>>, role: Role) -> Option<Datum<'t>>
    decreases parts.len(),
{
    if parts.len() == 0 {
        None
    } else if parts[0].role == role {
        Some(*parts[0].datum)
    } else {
        first_with_role(parts.drop_first(), role)
    }
}

/// The data of the parts of `parts` that have `role`, in order.
pub open spec fn parts_with_role<'a, 't>(parts: Seq<Part<'a, 't>>, role: Role) -> Seq<Datum<'t>>
    decreases parts.len(),
{
    if parts.len() == 0 {
        Seq::empty()
    } else {
        parts_with_role(parts.drop_last(), role) + if parts.last().role == role {
            seq![*parts.last().datum]
        } else {
            Seq::empty()
        }
    }
}

impl<'a, 't> Annotated<'a, 't> {
    /// The first child with the given role, if any.
    pub fn first(&self, role: Role) -> (r: Option<&'a Datum<'t>>)
        ensures
            match r {
                Some(d) => first_with_role(self.parts@, role) == Some(*d),
                None => first_with_role(self.parts@, role) is None,
            },
    {
        let mut i: usize = 0;
        assert(self.parts@.skip(0) =~= self.parts@);
        while i < self.parts.len()
            invariant
                i <= self.parts.len(),
                first_with_role(self.parts@, role) == first_with_role(self.parts@.skip(i as int), role),
            decreases self.parts.len() - i,
        {
            proof {
                assert(self.parts@.skip(i as int).drop_first() =~= self.parts@.skip(i + 1));
            }
            if self.parts[i].role == role {
                return Some(self.parts[i].datum);
            }
            i = i + 1;
        }
        None
    }

    /// Every child with the given role, in order.
    pub fn all(&self, role: Role) -> (v: Vec<&'a Datum<'t>>)
        ensures
            v@.map_values(|d: &'a Datum<'t>| *d) == parts_with_role(self.parts@, role),
    {
        let mut v: Vec<&'a Datum<'t>> = Vec::new();
        let mut i: usize = 0;
        while i < self.parts.len()
            invariant
                i <= self.parts.len(),
                v@.map_values(|d: &'a Datum<'t>| *d) == parts_with_role(self.parts@.take(i as int), role),
            decreases self.parts.len() - i,
        {
            proof {
                assert(self.parts@.take(i + 1).drop_last() =~= self.parts@.take(i as int));
            }
            if self.parts[i].role == role {
                v.push(self.parts[i].datum);
            }
            proof {
                assert(v@.map_values(|d: &'a Datum<'t>| *d) =~= parts_with_role(self.parts@.take(i + 1), role));
            }
            i = i + 1;
        }
        assert(self.parts@.take(self.parts.len() as int) =~= self.parts@);
        v
    }

    /// The required parameters of this form's
    /// [`Role::SpecializedArglist`], each split into a `(variable,
    /// specializer)` pair. Empty if the form has no specialized arglist.
    /// Specializers are verbatim data: types are not resolved and an
    /// `(eql form)` is not evaluated.
    pub fn specialized_params(&self) -> (v: Vec<SpecializedParam<'a, 't>>)
        ensures
            match first_with_role(self.parts@, Role::SpecializedArglist) {
                Some(a) => params_view(v@) == split_from(list_items(a), 0),
                None => v.len() == 0,
            },
    {
        match self.first(Role::SpecializedArglist) {
            Some(arglist) => split_specialized_arglist(arglist),
            None => Vec::new(),
        }
    }
}

/// A symbol that starts with `&` (a lambda-list marker).
pub open spec fn is_marker(d: Datum) -> bool {
    d.kind matches DatumKind::Symbol(s) && s.spec_bytes().len() > 0 && s.spec_bytes()[0] == 38u8
}

/// The `(variable, specializer)` pairs of a specialized arglist's items from
/// `i`: a bare symbol is unspecialized; `(var specializer)` splits (the
/// specializer is the whole second element, verbatim); other shapes are
/// skipped; the first lambda-list marker (`&optional`, `&rest`, …) ends the
/// required section.
pub open spec fn split_from<'t>(items: Seq<Datum<'t>>, i: int) -> Seq<(Datum<'t>, Option<Datum<'t>>)>
    decreases items.len() - i,
{
    if i < 0 || i >= items.len() {
        Seq::empty()
    } else if is_marker(items[i]) {
        Seq::empty()
    } else {
        let here: Seq<(Datum<'t>, Option<Datum<'t>>)> = match items[i].kind {
            DatumKind::Symbol(_) => seq![(items[i], None)],
            DatumKind::List { items: pair, .. } => if pair.len() > 0 {
                seq![(pair@[0], if pair.len() > 1 { Some(pair@[1]) } else { None })]
            } else {
                Seq::empty()
            },
            _ => Seq::empty(),
        };
        here + split_from(items, i + 1)
    }
}

/// The data of specialized parameters.
pub open spec fn params_view<'a, 't>(v: Seq<SpecializedParam<'a, 't>>) -> Seq<(Datum<'t>, Option<Datum<'t>>)> {
    v.map_values(
        |p: SpecializedParam<'a, 't>|
            (
                *p.variable,
                match p.specializer {
                    Some(s) => Some(*s),
                    None => None,
                },
            ),
    )
}

/// Split a specialized arglist's required parameters into `(variable,
/// specializer)` pairs. Stops at the first lambda-list marker (`&optional`,
/// `&rest`, `&key`, …); those tail parameters are not specialized.
pub fn split_specialized_arglist<'a, 't>(arglist: &'a Datum<'t>) -> (v: Vec<SpecializedParam<'a, 't>>)
    ensures
        params_view(v@) == split_from(list_items(*arglist), 0),
{
    let items = match &arglist.kind {
        DatumKind::List { items, .. } => items,
        _ => {
            return Vec::new();
        },
    };
    let ghost its = items@;
    let mut out: Vec<SpecializedParam<'a, 't>> = Vec::new();
    let mut i: usize = 0;
    while i < items.len()
        invariant
            i <= items.len(),
            its == items@,
            params_view(out@) + split_from(its, i as int) == split_from(its, 0),
        decreases items.len() - i,
    {
        let item = &items[i];
        let ghost before = params_view(out@);
        match &item.kind {
            DatumKind::Symbol(s) => {
                let b = s.as_bytes();
                if b.len() > 0 && b[0] == 38 {
                    // A lambda-list marker ends the required section.
                    proof {
                        assert(split_from(its, i as int) =~= Seq::<(Datum<'t>, Option<Datum<'t>>)>::empty());
                        assert(params_view(out@) =~= split_from(its, 0));
                    }
                    return out;
                }
                out.push(SpecializedParam { variable: item, specializer: None });
            },
            DatumKind::List { items: pair, .. } => {
                if pair.len() > 0 {
                    let spec = if pair.len() > 1 {
                        Some(&pair[1])
                    } else {
                        None
                    };
                    out.push(SpecializedParam { variable: &pair[0], specializer: spec });
                }
            },
            _ => {},
        }
        proof {
            assert(params_view(out@) + split_from(its, i + 1) =~= split_from(its, 0));
        }
        i = i + 1;
    }
    assert(params_view(out@) =~= split_from(its, 0));
    out
}

/// The role a def-macro parameter's base name names, if it is a known one.
pub open spec fn role_of_param(b: Seq<u8>) -> Option<Role> {
    if b == seq![110u8, 97, 109, 101] || b == seq![110u8, 97, 109, 101, 115] || b == seq![115u8, 121, 109, 98, 111, 108] || b == seq![115u8, 121, 109] || b == seq![102u8, 115, 121, 109] || b == seq![102u8, 110, 45, 110, 97, 109, 101] || b == seq![118u8, 97, 114] || b == seq![118u8, 97, 114, 105, 97, 98, 108, 101] || b == seq![112u8, 108, 97, 99, 101] || b == seq![116u8, 97, 114, 103, 101, 116] || b == seq![100u8, 101, 102] {
        Some(Role::Name)
    } else if b == seq![97u8, 114, 103, 108, 105, 115, 116] || b == seq![97u8, 114, 103, 115] || b == seq![97u8, 114, 103, 117, 109, 101, 110, 116, 115] || b == seq![108u8, 97, 109, 98, 100, 97, 45, 108, 105, 115, 116] || b == seq![107u8, 101, 121, 45, 97, 114, 103, 115] || b == seq![112u8, 97, 114, 97, 109, 115] || b == seq![112u8, 97, 114, 97, 109, 101, 116, 101, 114, 115] || b == seq![108u8, 108] {
        Some(Role::Arglist)
    } else if b == seq![100u8, 111, 99, 115, 116, 114, 105, 110, 103] || b == seq![100u8, 111, 99] || b == seq![100u8, 111, 99, 45, 115, 116, 114, 105, 110, 103] {
        Some(Role::Docstring)
    } else if b == seq![98u8, 111, 100, 121] || b == seq![102u8, 111, 114, 109, 115] || b == seq![98u8, 111, 100, 121, 102, 111, 114, 109] || b == seq![100u8, 101, 102, 45, 98, 111, 100, 121] || b == seq![114u8, 101, 115, 116] || b == seq![104u8, 101, 97, 100, 115] || b == seq![99u8, 108, 97, 117, 115, 101, 115] {
        Some(Role::Body)
    } else {
        None
    }
}

fn role_of_param_exec(b: &[u8]) -> (r: Option<Role>)
    ensures
        r == role_of_param(b@),
{
    let l0: [u8; 4] = [110, 97, 109, 101];  // `name`
    assert(l0@ =~= seq![110u8, 97, 109, 101]);
    let l1: [u8; 5] = [110, 97, 109, 101, 115];  // `names`
    assert(l1@ =~= seq![110u8, 97, 109, 101, 115]);
    let l2: [u8; 6] = [115, 121, 109, 98, 111, 108];  // `symbol`
    assert(l2@ =~= seq![115u8, 121, 109, 98, 111, 108]);
    let l3: [u8; 3] = [115, 121, 109];  // `sym`
    assert(l3@ =~= seq![115u8, 121, 109]);
    let l4: [u8; 4] = [102, 115, 121, 109];  // `fsym`
    assert(l4@ =~= seq![102u8, 115, 121, 109]);
    let l5: [u8; 7] = [102, 110, 45, 110, 97, 109, 101];  // `fn-name`
    assert(l5@ =~= seq![102u8, 110, 45, 110, 97, 109, 101]);
    let l6: [u8; 3] = [118, 97, 114];  // `var`
    assert(l6@ =~= seq![118u8, 97, 114]);
    let l7: [u8; 8] = [118, 97, 114, 105, 97, 98, 108, 101];  // `variable`
    assert(l7@ =~= seq![118u8, 97, 114, 105, 97, 98, 108, 101]);
    let l8: [u8; 5] = [112, 108, 97, 99, 101];  // `place`
    assert(l8@ =~= seq![112u8, 108, 97, 99, 101]);
    let l9: [u8; 6] = [116, 97, 114, 103, 101, 116];  // `target`
    assert(l9@ =~= seq![116u8, 97, 114, 103, 101, 116]);
    let l10: [u8; 3] = [100, 101, 102];  // `def`
    assert(l10@ =~= seq![100u8, 101, 102]);
    if bytes_equal(b, l0.as_slice()) || bytes_equal(b, l1.as_slice()) || bytes_equal(b, l2.as_slice()) || bytes_equal(b, l3.as_slice()) || bytes_equal(b, l4.as_slice()) || bytes_equal(b, l5.as_slice()) || bytes_equal(b, l6.as_slice()) || bytes_equal(b, l7.as_slice()) || bytes_equal(b, l8.as_slice()) || bytes_equal(b, l9.as_slice()) || bytes_equal(b, l10.as_slice()) {
        return Some(Role::Name);
    }
    let l11: [u8; 7] = [97, 114, 103, 108, 105, 115, 116];  // `arglist`
    assert(l11@ =~= seq![97u8, 114, 103, 108, 105, 115, 116]);
    let l12: [u8; 4] = [97, 114, 103, 115];  // `args`
    assert(l12@ =~= seq![97u8, 114, 103, 115]);
    let l13: [u8; 9] = [97, 114, 103, 117, 109, 101, 110, 116, 115];  // `arguments`
    assert(l13@ =~= seq![97u8, 114, 103, 117, 109, 101, 110, 116, 115]);
    let l14: [u8; 11] = [108, 97, 109, 98, 100, 97, 45, 108, 105, 115, 116];  // `lambda-list`
    assert(l14@ =~= seq![108u8, 97, 109, 98, 100, 97, 45, 108, 105, 115, 116]);
    let l15: [u8; 8] = [107, 101, 121, 45, 97, 114, 103, 115];  // `key-args`
    assert(l15@ =~= seq![107u8, 101, 121, 45, 97, 114, 103, 115]);
    let l16: [u8; 6] = [112, 97, 114, 97, 109, 115];  // `params`
    assert(l16@ =~= seq![112u8, 97, 114, 97, 109, 115]);
    let l17: [u8; 10] = [112, 97, 114, 97, 109, 101, 116, 101, 114, 115];  // `parameters`
    assert(l17@ =~= seq![112u8, 97, 114, 97, 109, 101, 116, 101, 114, 115]);
    let l18: [u8; 2] = [108, 108];  // `ll`
    assert(l18@ =~= seq![108u8, 108]);
    if bytes_equal(b, l11.as_slice()) || bytes_equal(b, l12.as_slice()) || bytes_equal(b, l13.as_slice()) || bytes_equal(b, l14.as_slice()) || bytes_equal(b, l15.as_slice()) || bytes_equal(b, l16.as_slice()) || bytes_equal(b, l17.as_slice()) || bytes_equal(b, l18.as_slice()) {
        return Some(Role::Arglist);
    }
    let l19: [u8; 9] = [100, 111, 99, 115, 116, 114, 105, 110, 103];  // `docstring`
    assert(l19@ =~= seq![100u8, 111, 99, 115, 116, 114, 105, 110, 103]);
    let l20: [u8; 3] = [100, 111, 99];  // `doc`
    assert(l20@ =~= seq![100u8, 111, 99]);
    let l21: [u8; 10] = [100, 111, 99, 45, 115, 116, 114, 105, 110, 103];  // `doc-string`
    assert(l21@ =~= seq![100u8, 111, 99, 45, 115, 116, 114, 105, 110, 103]);
    if bytes_equal(b, l19.as_slice()) || bytes_equal(b, l20.as_slice()) || bytes_equal(b, l21.as_slice()) {
        return Some(Role::Docstring);
    }
    let l22: [u8; 4] = [98, 111, 100, 121];  // `body`
    assert(l22@ =~= seq![98u8, 111, 100, 121]);
    let l23: [u8; 5] = [102, 111, 114, 109, 115];  // `forms`
    assert(l23@ =~= seq![102u8, 111, 114, 109, 115]);
    let l24: [u8; 8] = [98, 111, 100, 121, 102, 111, 114, 109];  // `bodyform`
    assert(l24@ =~= seq![98u8, 111, 100, 121, 102, 111, 114, 109]);
    let l25: [u8; 8] = [100, 101, 102, 45, 98, 111, 100, 121];  // `def-body`
    assert(l25@ =~= seq![100u8, 101, 102, 45, 98, 111, 100, 121]);
    let l26: [u8; 4] = [114, 101, 115, 116];  // `rest`
    assert(l26@ =~= seq![114u8, 101, 115, 116]);
    let l27: [u8; 5] = [104, 101, 97, 100, 115];  // `heads`
    assert(l27@ =~= seq![104u8, 101, 97, 100, 115]);
    let l28: [u8; 7] = [99, 108, 97, 117, 115, 101, 115];  // `clauses`
    assert(l28@ =~= seq![99u8, 108, 97, 117, 115, 101, 115]);
    if bytes_equal(b, l22.as_slice()) || bytes_equal(b, l23.as_slice()) || bytes_equal(b, l24.as_slice()) || bytes_equal(b, l25.as_slice()) || bytes_equal(b, l26.as_slice()) || bytes_equal(b, l27.as_slice()) || bytes_equal(b, l28.as_slice()) {
        return Some(Role::Body);
    }
    None
}

/// An earmuff character, trimmed from parameter names: `*` or `_`.
pub open spec fn is_earmuff(c: u8) -> bool {
    c == 42u8 || c == 95u8
}

/// The first index at or after `i` that is not an earmuff.
pub open spec fn earmuff_front(s: Seq<u8>, i: int) -> int
    decreases s.len() - i,
{
    if 0 <= i < s.len() && is_earmuff(s[i]) {
        earmuff_front(s, i + 1)
    } else {
        i
    }
}

/// The end of `s` before `j` once trailing earmuffs are trimmed, not below
/// `lo`.
pub open spec fn earmuff_back(s: Seq<u8>, lo: int, j: int) -> int
    decreases j - lo,
{
    if lo < j && is_earmuff(s[j - 1]) {
        earmuff_back(s, lo, j - 1)
    } else {
        j
    }
}

/// A parameter name, ASCII lower-cased, with surrounding earmuffs (`*` and
/// `_`) trimmed.
pub open spec fn param_base(name: Seq<u8>) -> Seq<u8> {
    let l = name.map_values(|c: u8| ascii_lower(c));
    let a = earmuff_front(l, 0);
    let b = earmuff_back(l, a, l.len() as int);
    l.subrange(a, b)
}

/// The role a def-macro parameter name suggests.
pub open spec fn spec_classify_param(name: Seq<u8>) -> Option<Role> {
    role_of_param(param_base(name))
}

/// The role a def-macro parameter name suggests, if it is a known one.
fn classify_param(name: &str) -> (r: Option<Role>)
    ensures
        r == spec_classify_param(name.spec_bytes()),
{
    classify_param_bytes(name.as_bytes())
}

fn classify_param_bytes(b: &[u8]) -> (r: Option<Role>)
    ensures
        r == spec_classify_param(b@),
{
    let mut l: Vec<u8> = Vec::new();
    let mut i: usize = 0;
    while i < b.len()
        invariant
            i <= b.len(),
            l@ == b@.take(i as int).map_values(|c: u8| ascii_lower(c)),
        decreases b.len() - i,
    {
        let c = b[i];
        l.push(if 65 <= c && c <= 90 { c + 32 } else { c });
        proof {
            assert(b@.take(i + 1).map_values(|c: u8| ascii_lower(c)) =~= b@.take(i as int).map_values(
                |c: u8| ascii_lower(c),
            ).push(ascii_lower(c)));
        }
        i = i + 1;
    }
    assert(b@.take(b.len() as int) =~= b@);
    let ghost lv = l@;
    let mut a: usize = 0;
    while a < l.len() && (l[a] == 42 || l[a] == 95)
        invariant
            a <= l.len(),
            earmuff_front(lv, 0) == earmuff_front(lv, a as int),
        decreases l.len() - a,
    {
        a = a + 1;
    }
    let mut e: usize = l.len();
    while e > a && (l[e - 1] == 42 || l[e - 1] == 95)
        invariant
            a <= e <= l.len(),
            earmuff_back(lv, a as int, lv.len() as int) == earmuff_back(lv, a as int, e as int),
        decreases e - a,
    {
        e = e - 1;
    }
    let mut base: Vec<u8> = Vec::new();
    let mut k: usize = a;
    while k < e
        invariant
            a <= k <= e,
            base@ == lv.subrange(a as int, k as int),
        decreases e - k,
    {
        base.push(l[k]);
        proof {
            assert(lv.subrange(a as int, k + 1) =~= lv.subrange(a as int, k as int).push(lv[k as int]));
        }
        k = k + 1;
    }
    role_of_param_exec(base.as_slice())
}

/// What a def-macro's arglist parameter names say: the leading roles, whether
/// a docstring parameter is named, whether a body follows, and whether any
/// name matched a known role.
pub struct ArglistClass {
    pub leading: Seq<Role>,
    pub docstring: bool,
    pub body: bool,
    pub matched: bool,
}

pub open spec fn is_rest_marker(b: Seq<u8>) -> bool {
    b == seq![38u8, 114, 101, 115, 116] || b == seq![38u8, 98, 111, 100, 121] || b == seq![38u8]
}

pub open spec fn is_colon_rest(b: Seq<u8>) -> bool {
    b == seq![58u8, 114, 101, 115, 116]
}

/// Classify `params` from index `i` onward, given whether a rest marker has
/// been seen and what was classified before. Lambda-list markers are
/// `&`-prefixed: `&rest`, `&body` and `&` open the body (the next named
/// parameter stands for the remainder, whatever its name); any other `&…`
/// or ISLisp `:rest` is skipped. Hy's `#* name` is a rest parameter too, so
/// the remainder is the body. A body-named parameter ends the leading
/// roles; a docstring-named one marks the docstring; an unknown name takes
/// an `Other` slot.
pub open spec fn arglist_class(params: Seq<Datum>, i: int, rest: bool, acc: ArglistClass) -> ArglistClass
    decreases params.len() - i,
{
    if i < 0 || i >= params.len() {
        acc
    } else {
        match params[i].kind {
            DatumKind::Symbol(p) => {
                let b = p.spec_bytes();
                if is_rest_marker(b) {
                    arglist_class(params, i + 1, true, acc)
                } else if (b.len() > 0 && b[0] == 38u8) || is_colon_rest(b) {
                    arglist_class(params, i + 1, rest, acc)
                } else if rest {
                    ArglistClass { body: true, matched: acc.matched || spec_classify_param(b) is Some, ..acc }
                } else {
                    match spec_classify_param(b) {
                        Some(Role::Body) => ArglistClass { body: true, matched: true, ..acc },
                        Some(Role::Docstring) => arglist_class(
                            params,
                            i + 1,
                            rest,
                            ArglistClass { docstring: true, matched: true, ..acc },
                        ),
                        Some(role) => arglist_class(
                            params,
                            i + 1,
                            rest,
                            ArglistClass { leading: acc.leading.push(role), matched: true, ..acc },
                        ),
                        None => arglist_class(
                            params,
                            i + 1,
                            rest,
                            ArglistClass { leading: acc.leading.push(Role::Other), ..acc },
                        ),
                    }
                }
            },
            DatumKind::HashLiteral { tag, inner } => {
                if tag.spec_bytes() == seq![42u8] {
                    ArglistClass { body: true, matched: acc.matched || hash_rest_named(inner), ..acc }
                } else {
                    arglist_class(params, i + 1, rest, acc)
                }
            },
            _ => arglist_class(params, i + 1, rest, acc),
        }
    }
}

/// Whether the parameter of a Hy `#* name` rest marker has a known role name.
pub open spec fn hash_rest_named(inner: Option<Box<Datum>>) -> bool {
    match inner {
        Some(d) => match d.kind {
            DatumKind::Symbol(n) => spec_classify_param(n.spec_bytes()) is Some,
            _ => false,
        },
        None => false,
    }
}

/// The classification of a whole arglist.
pub open spec fn spec_arglist(params: Seq<Datum>) -> ArglistClass {
    arglist_class(
        params,
        0,
        false,
        ArglistClass { leading: Seq::empty(), docstring: false, body: false, matched: false },
    )
}

/// Classify a def-macro arglist's parameter names into (leading roles,
/// docstring named, body, any known role matched).
fn classify_arglist_params(params: &[Datum]) -> (r: (Vec<Role>, bool, bool, bool))
    ensures
        ({
            let c = spec_arglist(params@);
            &&& r.0@ == c.leading
            &&& r.1 == c.docstring
            &&& r.2 == c.body
            &&& r.3 == c.matched
        }),
{
    let amp_rest: [u8; 5] = [38, 114, 101, 115, 116];
    let amp_body: [u8; 5] = [38, 98, 111, 100, 121];
    let amp: [u8; 1] = [38];
    let colon_rest: [u8; 5] = [58, 114, 101, 115, 116];
    let star: [u8; 1] = [42];
    assert(star@ =~= seq![42u8]);
    assert(amp_rest@ =~= seq![38u8, 114, 101, 115, 116]);
    assert(amp_body@ =~= seq![38u8, 98, 111, 100, 121]);
    assert(amp@ =~= seq![38u8]);
    assert(colon_rest@ =~= seq![58u8, 114, 101, 115, 116]);
    let mut leading: Vec<Role> = Vec::new();
    let mut docstring = false;
    let mut body = false;
    let mut matched_any = false;
    let mut rest = false;
    let mut i: usize = 0;
    while i < params.len()
        invariant
            i <= params.len(),
            spec_arglist(params@) == arglist_class(
                params@,
                i as int,
                rest,
                ArglistClass { leading: leading@, docstring, body, matched: matched_any },
            ),
        decreases params.len() - i,
    {
        if let DatumKind::Symbol(pname) = params[i].kind {
            let b = pname.as_bytes();
            if bytes_equal(b, amp_rest.as_slice()) || bytes_equal(b, amp_body.as_slice()) || bytes_equal(
                b,
                amp.as_slice(),
            ) {
                rest = true;
            } else if (b.len() > 0 && b[0] == 38) || bytes_equal(b, colon_rest.as_slice()) {
            } else if rest {
                // The rest parameter stands for the remainder — whatever its
                // name classifies as, the remainder is the body.
                if classify_param(pname).is_some() {
                    matched_any = true;
                }
                body = true;
                return (leading, docstring, body, matched_any);
            } else {
                match classify_param(pname) {
                    Some(Role::Body) => {
                        body = true;
                        matched_any = true;
                        return (leading, docstring, body, matched_any);
                    },
                    Some(Role::Docstring) => {
                        docstring = true;
                        matched_any = true;
                    },
                    Some(role) => {
                        leading.push(role);
                        matched_any = true;
                    },
                    None => {
                        leading.push(Role::Other);
                    },
                }
            }
        } else if let DatumKind::HashLiteral { tag, inner } = &params[i].kind {
            if bytes_equal(tag.as_bytes(), star.as_slice()) {
                let named = match inner {
                    Some(d) => match d.kind {
                        DatumKind::Symbol(n) => classify_param(n).is_some(),
                        _ => false,
                    },
                    None => false,
                };
                return (leading, docstring, true, matched_any || named);
            }
        }
        i = i + 1;
    }
    (leading, docstring, body, matched_any)
}


/// The head symbol and items of a list whose first item is a symbol.
fn list_head<'a, 't>(datum: &'a Datum<'t>) -> (r: Option<(&'t str, &'a [Datum<'t>])>)
    ensures
        match r {
            Some((h, items)) => datum.spec_head_symbol() == Some(h) && items@ == list_items(*datum)
                && items@.len() > 0,
            None => datum.spec_head_symbol() is None,
        },
{
    match &datum.kind {
        DatumKind::List { items, .. } => {
            if items.len() > 0 {
                match items[0].kind {
                    DatumKind::Symbol(h) => Some((h, items.as_slice())),
                    _ => None,
                }
            } else {
                None
            }
        },
        _ => None,
    }
}

/// Whether `s`'s bytes are those of the ASCII literal `lit`.
fn names(s: &str, lit: &[u8]) -> (r: bool)
    ensures
        r == (s.spec_bytes() == lit@),
{
    bytes_equal(s.as_bytes(), lit)
}

/// Per-dialect knobs for the def-macro harvester. The core signal — a
/// def-macro's own arglist parameter names — is shared across every
/// macro-defining Lisp; only these differ.
struct HarvestProfile {
    /// The macro-defining heads to scan (`defmacro`, `cl-defmacro`, Fennel
    /// `macro`, …).
    macro_heads: Vec<&'static str>,
    /// The docstring policy a harvested spec gets when its arglist names a
    /// docstring parameter.
    doc_policy: Docstring,
    /// Refine with elisp `declare` metadata in the body.
    use_declare: bool,
    /// Refine with Clojure `:arglists` / `:style/indent` metadata.
    clojure_meta: bool,
}

/// The harvest knobs of `dialect` (docstring policy, `declare`, Clojure
/// metadata), or `None` if its macros are not harvested by the arglist
/// heuristic.
pub open spec fn spec_profile(d: Dialect) -> Option<(Docstring, bool, bool)> {
    match d {
        Dialect::EmacsLisp => Some((Docstring::LeadingOrLone, true, false)),
        Dialect::CommonLisp => Some((Docstring::Leading, false, false)),
        Dialect::Clojure | Dialect::Phel => Some((Docstring::Leading, false, true)),
        Dialect::Fennel => Some((Docstring::Leading, false, false)),
        Dialect::Janet => Some((Docstring::Leading, false, false)),
        Dialect::Hy => Some((Docstring::LeadingOrLone, false, false)),
        Dialect::Lfe => Some((Docstring::Leading, false, false)),
        Dialect::Islisp => Some((Docstring::Absent, false, false)),
        _ => None,
    }
}

/// The bytes of the macro-defining heads of `d`.
pub open spec fn spec_macro_heads(d: Dialect) -> Seq<Seq<u8>> {
    match d {
        Dialect::EmacsLisp => seq!["defmacro".spec_bytes(), "cl-defmacro".spec_bytes()],
        Dialect::Fennel => seq!["macro".spec_bytes()],
        Dialect::Janet => seq!["defmacro".spec_bytes(), "defmacro-".spec_bytes()],
        _ => seq!["defmacro".spec_bytes()],
    }
}

/// The harvest profile for `dialect`, or `None` if its macros are not
/// harvestable by the arglist heuristic (the Scheme family uses
/// `syntax-rules` patterns; EDN and AutoLISP have no user macros).
fn harvest_profile(dialect: Dialect) -> (p: Option<HarvestProfile>)
    ensures
        match p {
            Some(h) => spec_profile(dialect) == Some((h.doc_policy, h.use_declare, h.clojure_meta))
                && heads_view(h.macro_heads@) == spec_macro_heads(dialect),
            None => spec_profile(dialect) is None,
        },
{
    let profile = |macro_heads: Vec<&'static str>, doc_policy: Docstring, use_declare: bool, clojure_meta: bool| -> (h: HarvestProfile)
        ensures
            h.macro_heads == macro_heads,
            h.doc_policy == doc_policy,
            h.use_declare == use_declare,
            h.clojure_meta == clojure_meta,
        { HarvestProfile { macro_heads, doc_policy, use_declare, clojure_meta } };
    match dialect {
        Dialect::EmacsLisp => Some(profile(vec!["defmacro", "cl-defmacro"], Docstring::LeadingOrLone, true, false)),
        Dialect::CommonLisp => Some(profile(vec!["defmacro"], Docstring::Leading, false, false)),
        Dialect::Clojure | Dialect::Phel => Some(profile(vec!["defmacro"], Docstring::Leading, false, true)),
        Dialect::Fennel => Some(profile(vec!["macro"], Docstring::Leading, false, false)),
        Dialect::Janet => Some(profile(vec!["defmacro", "defmacro-"], Docstring::Leading, false, false)),
        Dialect::Hy => Some(profile(vec!["defmacro"], Docstring::LeadingOrLone, false, false)),
        Dialect::Lfe => Some(profile(vec!["defmacro"], Docstring::Leading, false, false)),
        Dialect::Islisp => Some(profile(vec!["defmacro"], Docstring::Absent, false, false)),
        _ => None,
    }
}

/// A def-macro's name item: a symbol, or a symbol under `^{…}` reader
/// metadata whose map rides along.
pub open spec fn name_and_meta<'t>(item: Datum<'t>) -> Option<(Seq<char>, Option<Datum<'t>>)> {
    match item.kind {
        DatumKind::Symbol(s) => Some((s@, None)),
        DatumKind::Prefixed { prefix: Prefix::Meta, inner, arg, .. } => match inner.kind {
            DatumKind::Symbol(s) => Some((
                s@,
                match arg {
                    Some(a) => Some(*a),
                    None => None,
                },
            )),
            _ => None,
        },
        _ => None,
    }
}

/// The bytes of a list's head symbol, if it has one.
pub open spec fn head_bytes(d: Datum) -> Option<Seq<u8>> {
    match d.spec_head_symbol() {
        Some(h) => Some(h.spec_bytes()),
        None => None,
    }
}

/// Whether an item before the arglist is skipped: a docstring, or a
/// Clojure `{…}` attr-map.
pub open spec fn skipped_before_arglist(d: Datum) -> bool {
    d.kind is Str || d.kind matches DatumKind::List { delim: Delim::Curly, .. }
}

/// The position of the arglist: the first item from `i` on that is not
/// skipped.
pub open spec fn arglist_index(items: Seq<Datum>, i: int) -> int
    decreases items.len() - i,
{
    if i < 0 || i >= items.len() {
        i
    } else if skipped_before_arglist(items[i]) {
        arglist_index(items, i + 1)
    } else {
        i
    }
}

/// The Clojure attr-map: the last `{…}` among `items[2..hi]`.
pub open spec fn last_attr_map<'t>(items: Seq<Datum<'t>>, hi: int) -> Option<Datum<'t>>
    decreases hi,
{
    if hi <= 2 {
        None
    } else if items[hi - 1].kind matches DatumKind::List { delim: Delim::Curly, .. } {
        Some(items[hi - 1])
    } else {
        last_attr_map(items, hi - 1)
    }
}

/// `declare`.
pub open spec fn lit_declare() -> Seq<u8> {
    seq![100u8, 101, 99, 108, 97, 114, 101]
}

/// `doc-string`.
pub open spec fn lit_doc_string() -> Seq<u8> {
    seq![100u8, 111, 99, 45, 115, 116, 114, 105, 110, 103]
}

/// `debug`.
pub open spec fn lit_debug() -> Seq<u8> {
    seq![100u8, 101, 98, 117, 103]
}

/// Whether some entry of a `(declare …)` form from position `k` on is a
/// list headed by `key`.
pub open spec fn decl_names(decl: Seq<Datum>, k: int, key: Seq<u8>) -> bool
    decreases decl.len() - k,
{
    if k < 0 || k >= decl.len() {
        false
    } else {
        head_bytes(decl[k]) == Some(key) || decl_names(decl, k + 1, key)
    }
}

/// Whether some `(declare …)` form among `items[j..]` has an entry headed
/// by `key`.
pub open spec fn declares(items: Seq<Datum>, j: int, key: Seq<u8>) -> bool
    decreases items.len() - j,
{
    if j < 0 || j >= items.len() {
        false
    } else {
        (head_bytes(items[j]) == Some(lit_declare()) && decl_names(list_items(items[j]), 1, key))
            || declares(items, j + 1, key)
    }
}

/// The value after the keyword `key` in the flat key/value items from `j`.
pub open spec fn kv_from<'t>(items: Seq<Datum<'t>>, j: int, key: Seq<u8>) -> Option<Datum<'t>>
    decreases items.len() - j,
{
    if j < 0 || items.len() - j <= 1 {
        None
    } else if items[j].kind matches DatumKind::Keyword(kw) && kw.spec_bytes() == key {
        Some(items[j + 1])
    } else {
        kv_from(items, j + 2, key)
    }
}

/// The value for `key` in a Clojure metadata map `{…}`.
pub open spec fn meta_value<'t>(meta: Datum<'t>, key: Seq<u8>) -> Option<Datum<'t>> {
    match meta.kind {
        DatumKind::List { delim: Delim::Curly, items, .. } => kv_from(items@, 0, key),
        _ => None,
    }
}

/// `:arglists`.
pub open spec fn lit_arglists() -> Seq<u8> {
    seq![58u8, 97, 114, 103, 108, 105, 115, 116, 115]
}

/// `:style/indent`.
pub open spec fn lit_style_indent() -> Seq<u8> {
    seq![58u8, 115, 116, 121, 108, 101, 47, 105, 110, 100, 101, 110, 116]
}

/// The params of the first arglist vector of a Clojure `:arglists` value:
/// `'([params…] …)` (a quoted list of vectors) or a bare list.
pub open spec fn arglists_of<'t>(meta: Datum<'t>) -> Option<Seq<Datum<'t>>> {
    match meta_value(meta, lit_arglists()) {
        Some(v) => {
            let list = match v.kind {
                DatumKind::Prefixed { prefix: Prefix::Quote, inner, .. } => *inner,
                _ => v,
            };
            match list.kind {
                DatumKind::List { items, .. } => if items.len() > 0 {
                    match items@[0].kind {
                        DatumKind::List { items: params, .. } => Some(params@),
                        _ => None,
                    }
                } else {
                    None
                },
                _ => None,
            }
        },
        None => None,
    }
}

/// What a `:style/indent` value means: an integer, the `:defn`/`:form`
/// keywords, or a nested `[n …]` whose first element is the form-level
/// spec.
pub open spec fn spec_style_indent(d: Datum) -> Option<StyleIndent>
    decreases d,
{
    match d.kind {
        DatumKind::Number(n) => match spec_parse_usize(n.spec_bytes()) {
            Some(v) => Some(StyleIndent::Count(v as usize)),
            None => None,
        },
        DatumKind::Keyword(k) => if k.spec_bytes() == seq![58u8, 100, 101, 102, 110] || k.spec_bytes()
            == seq![58u8, 102, 111, 114, 109] {
            Some(StyleIndent::Body)
        } else {
            None
        },
        DatumKind::List { items, .. } => if items.len() > 0 {
            proof {
                assert(decreases_to!(d => items@[0]));
            }
            spec_style_indent(items@[0])
        } else {
            None
        },
        _ => None,
    }
}

/// The `:style/indent` of a Clojure metadata map.
pub open spec fn style_indent_of(meta: Datum) -> Option<StyleIndent> {
    match meta_value(meta, lit_style_indent()) {
        Some(v) => spec_style_indent(v),
        None => None,
    }
}

/// The `:arglists` params from the name metadata, else from the attr-map.
pub open spec fn meta_arglists<'t>(name_meta: Option<Datum<'t>>, attr: Option<Datum<'t>>) -> Option<
    Seq<Datum<'t>>,
> {
    let from_name = match name_meta {
        Some(m) => arglists_of(m),
        None => None,
    };
    match from_name {
        Some(a) => Some(a),
        None => match attr {
            Some(m) => arglists_of(m),
            None => None,
        },
    }
}

/// The `:style/indent` from the name metadata, else from the attr-map.
pub open spec fn meta_indent(name_meta: Option<Datum>, attr: Option<Datum>) -> Option<StyleIndent> {
    let from_name = match name_meta {
        Some(m) => style_indent_of(m),
        None => None,
    };
    match from_name {
        Some(i) => Some(i),
        None => match attr {
            Some(m) => style_indent_of(m),
            None => None,
        },
    }
}

/// `l` padded with `Other` up to length `n`.
pub open spec fn pad_other(l: Seq<Role>, n: nat) -> Seq<Role> {
    if l.len() < n {
        l + Seq::new((n - l.len()) as nat, |i: int| Role::Other)
    } else {
        l
    }
}

/// A harvested def-macro spec: name, leading roles, docstring policy,
/// body, and confidence.
pub struct HarvestedSpec {
    pub name: Seq<char>,
    pub leading: Seq<Role>,
    pub docstring: Docstring,
    pub body: bool,
    pub confidence: Confidence,
}

/// The spec harvested from a def-macro whose items are `items`, named
/// `name` with name metadata `name_meta`, its arglist at `idx`: roles from
/// the arglist parameter names; with `use_declare`, an elisp
/// `(declare (doc-string …))` names a docstring and a `doc-string` or
/// `debug` entry makes the spec declared; with `clojure_meta`, an
/// `:arglists` that names a known role replaces the arglist's reading, and
/// otherwise a `:style/indent` pads the leading roles to its count and opens
/// the body. The confidence is `Declared` when metadata decided, else
/// `Inferred` when a name matched a role, else `Weak`.
pub open spec fn refined_spec<'t>(
    items: Seq<Datum<'t>>,
    idx: int,
    name: Seq<char>,
    name_meta: Option<Datum<'t>>,
    params: Seq<Datum<'t>>,
    doc_policy: Docstring,
    use_declare: bool,
    clojure_meta: bool,
) -> HarvestedSpec {
    let c = spec_arglist(params);
    let doc_decl = use_declare && declares(items, idx + 1, lit_doc_string());
    let dbg_decl = use_declare && declares(items, idx + 1, lit_debug());
    let attr = last_attr_map(items, idx);
    let arglist = meta_arglists(name_meta, attr);
    let applied = clojure_meta && arglist is Some && spec_arglist(arglist.unwrap()).matched;
    let indent = meta_indent(name_meta, attr);
    let styled = clojure_meta && !applied && indent is Some;
    let leading = if applied {
        spec_arglist(arglist.unwrap()).leading
    } else if styled {
        match indent.unwrap() {
            StyleIndent::Count(n) => pad_other(c.leading, n as nat),
            StyleIndent::Body => c.leading,
        }
    } else {
        c.leading
    };
    let doc = if applied {
        spec_arglist(arglist.unwrap()).docstring
    } else {
        c.docstring || doc_decl
    };
    let body = if applied {
        spec_arglist(arglist.unwrap()).body
    } else {
        styled || c.body
    };
    let declared = doc_decl || dbg_decl || applied || styled;
    let matched = c.matched || applied || styled;
    HarvestedSpec {
        name,
        leading,
        docstring: if doc {
            doc_policy
        } else {
            Docstring::Absent
        },
        body,
        confidence: if declared {
            Confidence::Declared
        } else if matched {
            Confidence::Inferred
        } else {
            Confidence::Weak
        },
    }
}

/// The spec harvested from `form` when it is a def-macro under one of
/// `heads`: `(HEAD NAME [DOC] [ATTR-MAP] ARGLIST …)`.
pub open spec fn spec_harvest_defmacro(
    form: Datum,
    heads: Seq<Seq<u8>>,
    doc_policy: Docstring,
    use_declare: bool,
    clojure_meta: bool,
) -> Option<HarvestedSpec> {
    let items = list_items(form);
    match head_bytes(form) {
        Some(h) => if !heads.contains(h) || items.len() < 2 {
            None
        } else {
            match name_and_meta(items[1]) {
                Some((name, name_meta)) => {
                    let idx = arglist_index(items, 2);
                    if idx >= items.len() {
                        None
                    } else {
                        match items[idx].kind {
                            DatumKind::List { items: params, .. } => Some(
                                refined_spec(
                                    items,
                                    idx,
                                    name,
                                    name_meta,
                                    params@,
                                    doc_policy,
                                    use_declare,
                                    clojure_meta,
                                ),
                            ),
                            _ => None,
                        }
                    }
                },
                None => None,
            }
        },
        None => None,
    }
}

/// What a formed [`FormSpec`] says, as a [`HarvestedSpec`].
pub open spec fn harvested(s: FormSpec) -> HarvestedSpec {
    HarvestedSpec {
        name: s.head@,
        leading: s.leading@,
        docstring: s.docstring,
        body: s.body,
        confidence: s.confidence,
    }
}

/// The bytes of each macro head.
pub open spec fn heads_view(v: Seq<&str>) -> Seq<Seq<u8>> {
    v.map_values(|h: &str| h.spec_bytes())
}

/// Harvest a spec from a def-macro form: roles from its arglist parameter
/// names, refined by elisp `declare` or Clojure metadata where the profile
/// says so.
#[verifier::spinoff_prover]
#[verifier::rlimit(60)]
fn harvest_defmacro(form: &Datum, profile: &HarvestProfile) -> (r: Option<FormSpec>)
    ensures
        match r {
            Some(spec) => spec_harvest_defmacro(
                *form,
                heads_view(profile.macro_heads@),
                profile.doc_policy,
                profile.use_declare,
                profile.clojure_meta,
            ) == Some(harvested(spec)) && spec.category is None && spec.dispatch is None,
            None => spec_harvest_defmacro(
                *form,
                heads_view(profile.macro_heads@),
                profile.doc_policy,
                profile.use_declare,
                profile.clojure_meta,
            ) is None,
        },
{
    let ghost heads = heads_view(profile.macro_heads@);
    let (head, items) = match list_head(form) {
        Some(x) => x,
        None => {
            return None;
        },
    };
    let mut h: usize = 0;
    let mut is_macro_head = false;
    while h < profile.macro_heads.len()
        invariant
            h <= profile.macro_heads.len(),
            heads == heads_view(profile.macro_heads@),
            is_macro_head == exists|t: int| 0 <= t < h && heads[t] == head.spec_bytes(),
        decreases profile.macro_heads.len() - h,
    {
        let eq = bytes_equal(profile.macro_heads[h].as_bytes(), head.as_bytes());
        proof {
            assert(heads[h as int] == profile.macro_heads@[h as int].spec_bytes());
            if eq {
                assert(heads[h as int] == head.spec_bytes());
            } else {
                assert forall|t: int| 0 <= t < h + 1 && heads[t] == head.spec_bytes() implies 0 <= t < h by {}
            }
        }
        if eq {
            is_macro_head = true;
        }
        h = h + 1;
    }
    if !is_macro_head || items.len() < 2 {
        return None;
    }
    // The name is a symbol, possibly wrapped in Clojure `^{…}` reader
    // metadata, in which case the metadata map rides along as `arg`.
    let (name, name_meta): (&str, Option<&Datum>) = match &items[1].kind {
        DatumKind::Symbol(s) => (*s, None),
        DatumKind::Prefixed { prefix: Prefix::Meta, inner, arg, .. } => match inner.kind {
            DatumKind::Symbol(s) => (
                s,
                match arg {
                    Some(a) => Some(&**a),
                    None => None,
                },
            ),
            _ => {
                return None;
            },
        },
        _ => {
            return None;
        },
    };
    let ghost gmeta: Option<Datum> = match name_meta {
        Some(m) => Some(*m),
        None => None,
    };
    assert(name_and_meta(items@[1]) == Some((name@, gmeta)));
    // The arglist: the first list-shaped item after the name, skipping a
    // docstring and/or a Clojure attr-map before it.
    let mut idx: usize = 2;
    let mut attr_map: Option<&Datum> = None;
    while idx < items.len()
        invariant
            2 <= idx <= items.len(),
            arglist_index(items@, 2) == arglist_index(items@, idx as int),
            match attr_map {
                Some(a) => last_attr_map(items@, idx as int) == Some(*a),
                None => last_attr_map(items@, idx as int) is None,
            },
        decreases items.len() - idx,
    {
        match &items[idx].kind {
            DatumKind::Str(_) => {
                idx = idx + 1;
            },
            DatumKind::List { delim: Delim::Curly, .. } => {
                attr_map = Some(&items[idx]);
                idx = idx + 1;
            },
            _ => {
                break;
            },
        }
    }
    if idx >= items.len() {
        return None;
    }
    let params = match &items[idx].kind {
        DatumKind::List { items: params, .. } => params,
        _ => {
            return None;
        },
    };
    let ghost gattr: Option<Datum> = match attr_map {
        Some(a) => Some(*a),
        None => None,
    };
    assert(last_attr_map(items@, idx as int) == gattr);
    let (mut leading, mut docstring, mut body, mut matched_any) = classify_arglist_params(params.as_slice());
    // Refine with elisp `declare` metadata in the body.
    let mut doc_decl = false;
    let mut dbg_decl = false;
    if profile.use_declare {
        let declare: [u8; 7] = [100, 101, 99, 108, 97, 114, 101];
        let doc_string: [u8; 10] = [100, 111, 99, 45, 115, 116, 114, 105, 110, 103];
        let debug: [u8; 5] = [100, 101, 98, 117, 103];
        assert(declare@ =~= lit_declare());
        assert(doc_string@ =~= lit_doc_string());
        assert(debug@ =~= lit_debug());
        let mut j: usize = idx + 1;
        while j < items.len()
            invariant
                idx + 1 <= j <= items.len(),
                declare@ == lit_declare(),
                doc_string@ == lit_doc_string(),
                debug@ == lit_debug(),
                (doc_decl || declares(items@, j as int, lit_doc_string())) == declares(
                    items@,
                    idx + 1,
                    lit_doc_string(),
                ),
                (dbg_decl || declares(items@, j as int, lit_debug())) == declares(items@, idx + 1, lit_debug()),
            decreases items.len() - j,
        {
            if let Some((dh, decl_items)) = list_head(&items[j]) {
                if names(dh, declare.as_slice()) {
                    let mut k: usize = 1;
                    let mut doc_here = false;
                    let mut dbg_here = false;
                    while k < decl_items.len()
                        invariant
                            1 <= k <= decl_items.len(),
                            decl_items@ == list_items(items@[j as int]),
                            doc_string@ == lit_doc_string(),
                            debug@ == lit_debug(),
                            (doc_here || decl_names(decl_items@, k as int, lit_doc_string())) == decl_names(
                                decl_items@,
                                1,
                                lit_doc_string(),
                            ),
                            (dbg_here || decl_names(decl_items@, k as int, lit_debug())) == decl_names(
                                decl_items@,
                                1,
                                lit_debug(),
                            ),
                        decreases decl_items.len() - k,
                    {
                        if let Some((key, _)) = list_head(&decl_items[k]) {
                            if names(key, doc_string.as_slice()) {
                                doc_here = true;
                            } else if names(key, debug.as_slice()) {
                                dbg_here = true;
                            }
                        }
                        k = k + 1;
                    }
                    doc_decl = doc_decl || doc_here;
                    dbg_decl = dbg_decl || dbg_here;
                }
            }
            j = j + 1;
        }
    }
    let mut declared = doc_decl || dbg_decl;
    docstring = docstring || doc_decl;
    // Refine with Clojure metadata from the `^{…}` name metadata or the
    // attr-map — the analog of elisp `declare`.
    if profile.clojure_meta {
        let arglist = match name_meta {
            Some(m) => match clojure_arglists(m) {
                Some(a) => Some(a),
                None => match attr_map {
                    Some(am) => clojure_arglists(am),
                    None => None,
                },
            },
            None => match attr_map {
                Some(am) => clojure_arglists(am),
                None => None,
            },
        };
        assert(match arglist {
            Some(a) => meta_arglists(gmeta, gattr) == Some(a@),
            None => meta_arglists(gmeta, gattr) is None,
        });
        let mut arglists_applied = false;
        if let Some(arglist) = arglist {
            let (l, doc, b, matched) = classify_arglist_params(arglist);
            if matched {
                leading = l;
                docstring = doc;
                body = b;
                matched_any = true;
                declared = true;
                arglists_applied = true;
            }
        }
        // `:style/indent` names only the body boundary, so it is a fallback
        // when `:arglists` did not already pin the shape.
        if !arglists_applied {
            let indent = match name_meta {
                Some(m) => match clojure_style_indent(m) {
                    Some(i) => Some(i),
                    None => match attr_map {
                        Some(am) => clojure_style_indent(am),
                        None => None,
                    },
                },
                None => match attr_map {
                    Some(am) => clojure_style_indent(am),
                    None => None,
                },
            };
            assert(indent == meta_indent(gmeta, gattr));
            if let Some(indent) = indent {
                if let StyleIndent::Count(n) = indent {
                    let ghost l0 = leading@;
                    while leading.len() < n
                        invariant
                            l0.len() <= leading.len() <= (if l0.len() < n {
                                n as int
                            } else {
                                l0.len() as int
                            }),
                            leading@ == l0 + Seq::new((leading.len() - l0.len()) as nat, |i: int| Role::Other),
                        decreases n - leading.len(),
                    {
                        leading.push(Role::Other);
                        assert(leading@ =~= l0 + Seq::new((leading.len() - l0.len()) as nat, |i: int| Role::Other));
                    }
                    assert(leading@ =~= pad_other(l0, n as nat));
                }
                body = true;
                declared = true;
                matched_any = true;
            }
        }
    }
    let confidence = if declared {
        Confidence::Declared
    } else if matched_any {
        Confidence::Inferred
    } else {
        Confidence::Weak
    };
    // The dialect's docstring policy applies only when a doc parameter was
    // named.
    let docstring = if docstring {
        profile.doc_policy
    } else {
        Docstring::Absent
    };
    let spec = FormSpec::new(name, leading, docstring, body, confidence);
    assert(harvested(spec) == refined_spec(
        items@,
        idx as int,
        name@,
        gmeta,
        params@,
        profile.doc_policy,
        profile.use_declare,
        profile.clojure_meta,
    ));
    Some(spec)
}

/// The value for `key` in a Clojure metadata map `{…}` (a flat key/value
/// sequence), if `meta` is such a map and carries the key.
fn clojure_meta_value<'a, 't>(meta: &'a Datum<'t>, key: &[u8]) -> (r: Option<&'a Datum<'t>>)
    ensures
        match r {
            Some(v) => meta_value(*meta, key@) == Some(*v),
            None => meta_value(*meta, key@) is None,
        },
{
    let items = match &meta.kind {
        DatumKind::List { delim: Delim::Curly, items, .. } => items,
        _ => {
            return None;
        },
    };
    let mut j: usize = 0;
    while j < items.len() && items.len() - j > 1
        invariant
            j <= items.len() + 1,
            meta_value(*meta, key@) == kv_from(items@, j as int, key@),
        decreases items.len() + 1 - j,
    {
        if let DatumKind::Keyword(kw) = items[j].kind {
            if bytes_equal(kw.as_bytes(), key) {
                return Some(&items[j + 1]);
            }
        }
        j = j + 2;
    }
    None
}

/// The params of the first arglist vector of a Clojure `:arglists` metadata
/// value: `'([params…] …)` (a quoted list of vectors) or a bare list.
fn clojure_arglists<'a, 't>(meta: &'a Datum<'t>) -> (r: Option<&'a [Datum<'t>]>)
    ensures
        match r {
            Some(a) => arglists_of(*meta) == Some(a@),
            None => arglists_of(*meta) is None,
        },
{
    let arglists: [u8; 9] = [58, 97, 114, 103, 108, 105, 115, 116, 115];  // `:arglists`
    assert(arglists@ =~= lit_arglists());
    let value = match clojure_meta_value(meta, arglists.as_slice()) {
        Some(v) => v,
        None => {
            return None;
        },
    };
    // Unwrap a leading quote, then take the first arglist vector.
    let list: &Datum = match &value.kind {
        DatumKind::Prefixed { prefix: Prefix::Quote, inner, .. } => &**inner,
        _ => value,
    };
    match list.items() {
        Some(its) => if its.len() > 0 {
            its[0].items()
        } else {
            None
        },
        None => None,
    }
}

/// A Clojure `:style/indent` value's body-boundary meaning.
pub enum StyleIndent {
    /// `n` leading distinguished arguments, then a body.
    Count(usize),
    /// Every argument indents as a body (`:defn` / `:form`).
    Body,
}

/// The [`StyleIndent`] from a Clojure metadata map's `:style/indent`.
fn clojure_style_indent(meta: &Datum) -> (r: Option<StyleIndent>)
    ensures
        r == style_indent_of(*meta),
{
    let style: [u8; 13] = [58, 115, 116, 121, 108, 101, 47, 105, 110, 100, 101, 110, 116];  // `:style/indent`
    assert(style@ =~= lit_style_indent());
    match clojure_meta_value(meta, style.as_slice()) {
        Some(v) => interpret_style_indent(v),
        None => None,
    }
}

/// An integer, the `:defn`/`:form` keywords, or a nested `[n …]` whose
/// first element is the form-level spec.
fn interpret_style_indent(spec: &Datum) -> (r: Option<StyleIndent>)
    ensures
        r == spec_style_indent(*spec),
    decreases spec,
{
    let defn: [u8; 5] = [58, 100, 101, 102, 110];  // `:defn`
    let form: [u8; 5] = [58, 102, 111, 114, 109];  // `:form`
    assert(defn@ =~= seq![58u8, 100, 101, 102, 110]);
    assert(form@ =~= seq![58u8, 102, 111, 114, 109]);
    match &spec.kind {
        DatumKind::Number(n) => match parse_usize(n) {
            Some(v) => Some(StyleIndent::Count(v)),
            None => None,
        },
        DatumKind::Keyword(k) => if names(k, defn.as_slice()) || names(k, form.as_slice()) {
            Some(StyleIndent::Body)
        } else {
            None
        },
        DatumKind::List { items, .. } => if items.len() > 0 {
            proof {
                assert(decreases_to!(*spec => items@[0]));
            }
            interpret_style_indent(&items[0])
        } else {
            None
        },
        _ => None,
    }
}

/// A run of one or more ASCII digits whose value is at most `max`, read.
pub open spec fn digits_upto(d: Seq<u8>, max: nat) -> Option<nat> {
    if d.len() > 0 && (forall|i: int| 0 <= i < d.len() ==> 48 <= #[trigger] d[i] <= 57)
        && digits_value(d) <= max {
        Some(digits_value(d))
    } else {
        None
    }
}

/// How `usize`'s `FromStr` reads a string: an optional `+`, then one or
/// more ASCII digits whose value fits.
pub open spec fn spec_parse_usize(s: Seq<u8>) -> Option<nat> {
    if s.len() > 0 && s[0] == 43u8 {
        digits_upto(s.skip(1), usize::MAX as nat)
    } else {
        digits_upto(s, usize::MAX as nat)
    }
}

/// Read a `usize` the way its `FromStr` does.
fn parse_usize(s: &str) -> (r: Option<usize>)
    ensures
        match r {
            Some(v) => spec_parse_usize(s.spec_bytes()) == Some(v as nat),
            None => spec_parse_usize(s.spec_bytes()) is None,
        },
{
    let b = s.as_bytes();
    let start: usize = if b.len() > 0 && b[0] == 43 {
        1
    } else {
        0
    };
    let ghost d = b@.skip(start as int);
    assert(b@.skip(0) =~= b@);
    assert(spec_parse_usize(b@) == digits_upto(d, usize::MAX as nat));
    if start >= b.len() {
        return None;
    }
    let mut v: usize = 0;
    let mut i: usize = start;
    while i < b.len()
        invariant
            start <= i <= b.len(),
            d == b@.skip(start as int),
            forall|k: int| 0 <= k < i - start ==> 48 <= #[trigger] d[k] <= 57,
            v == digits_value(d.take(i - start)),
        decreases b.len() - i,
    {
        let c = b[i];
        if c < 48 || c > 57 {
            assert(!(48 <= d[i - start] <= 57));
            return None;
        }
        proof {
            assert(d.take(i - start + 1).drop_last() =~= d.take(i - start));
        }
        let m = v.checked_mul(10);
        let next = match m {
            Some(m) => m.checked_add((c - 48) as usize),
            None => None,
        };
        match next {
            Some(n) => {
                v = n;
            },
            None => {
                proof {
                    assert(digits_value(d.take(i - start + 1)) == v * 10 + (c - 48));
                    assert(digits_value(d.take(i - start + 1)) > usize::MAX);
                    let rest_ok = forall|k: int| 0 <= k < d.len() ==> 48 <= #[trigger] d[k] <= 57;
                    if rest_ok {
                        lemma_digits_value_mono(d, i - start + 1);
                    }
                }
                return None;
            },
        }
        i = i + 1;
    }
    assert(d.take(b.len() - start) =~= d);
    Some(v)
}


/// The defined name of a Scheme definition's head argument: a bare symbol
/// (`(define-syntax NAME …)`) or the head of a `(NAME …)` list.
fn scheme_def_name<'t>(datum: &Datum<'t>) -> (r: Option<&'t str>)
    ensures
        match r {
            Some(n) => scheme_name(*datum) == Some(n@),
            None => scheme_name(*datum) is None,
        },
{
    match &datum.kind {
        DatumKind::Symbol(s) => Some(*s),
        DatumKind::List { items, .. } => if items.len() > 0 {
            items[0].as_symbol()
        } else {
            None
        },
        _ => None,
    }
}

/// Whether `h` names a transformer: `syntax-rules`, `syntax-case` or
/// `syntax-parse`.
pub open spec fn is_transformer_head(h: Seq<u8>) -> bool {
    ||| h == seq![115u8, 121, 110, 116, 97, 120, 45, 114, 117, 108, 101, 115]
    ||| h == seq![115u8, 121, 110, 116, 97, 120, 45, 99, 97, 115, 101]
    ||| h == seq![115u8, 121, 110, 116, 97, 120, 45, 112, 97, 114, 115, 101]
}

/// The items of the first transformer form in `d`, in pre-order.
pub open spec fn transformer_clauses<'t>(d: Datum<'t>) -> Option<Seq<Datum<'t>>>
    decreases d, 1nat,
{
    match d.kind {
        DatumKind::List { items, .. } => {
            if items.len() > 0 && (items@[0].kind matches DatumKind::Symbol(h) && is_transformer_head(
                h.spec_bytes(),
            )) {
                Some(items@)
            } else {
                first_clauses(items@)
            }
        },
        _ => None,
    }
}

/// The items of the first transformer form among `s`, in order.
pub open spec fn first_clauses<'t>(s: Seq<Datum<'t>>) -> Option<Seq<Datum<'t>>>
    decreases s, 0nat,
{
    if s.len() == 0 {
        None
    } else {
        match transformer_clauses(s[0]) {
            Some(c) => Some(c),
            None => first_clauses(s.drop_first()),
        }
    }
}

/// The items of the first `syntax-rules` / `syntax-case` / `syntax-parse`
/// form found in `d`, searched recursively (so a transformer wrapped in a
/// `lambda` is reached).
fn find_transformer_clauses<'a, 't>(d: &'a Datum<'t>) -> (r: Option<&'a [Datum<'t>]>)
    ensures
        match r {
            Some(c) => transformer_clauses(*d) == Some(c@),
            None => transformer_clauses(*d) is None,
        },
    decreases d,
{
    let items = match &d.kind {
        DatumKind::List { items, .. } => items,
        _ => {
            return None;
        },
    };
    let rules: [u8; 12] = [115, 121, 110, 116, 97, 120, 45, 114, 117, 108, 101, 115];  // `syntax-rules`
    let case: [u8; 11] = [115, 121, 110, 116, 97, 120, 45, 99, 97, 115, 101];  // `syntax-case`
    let parse_kw: [u8; 12] = [115, 121, 110, 116, 97, 120, 45, 112, 97, 114, 115, 101];  // `syntax-parse`
    assert(rules@ =~= seq![115u8, 121, 110, 116, 97, 120, 45, 114, 117, 108, 101, 115]);
    assert(case@ =~= seq![115u8, 121, 110, 116, 97, 120, 45, 99, 97, 115, 101]);
    assert(parse_kw@ =~= seq![115u8, 121, 110, 116, 97, 120, 45, 112, 97, 114, 115, 101]);
    if items.len() > 0 {
        if let DatumKind::Symbol(h) = items[0].kind {
            if names(h, rules.as_slice()) || names(h, case.as_slice()) || names(h, parse_kw.as_slice()) {
                return Some(items.as_slice());
            }
        }
    }
    let mut i: usize = 0;
    assert(items@.skip(0) =~= items@);
    while i < items.len()
        invariant
            i <= items.len(),
            transformer_clauses(*d) == first_clauses(items@.skip(i as int)),
        decreases items.len() - i,
    {
        proof {
            assert(decreases_to!(*d => items@[i as int]));
            assert(items@.skip(i as int)[0] == items@[i as int]);
            assert(items@.skip(i as int).drop_first() =~= items@.skip(i + 1));
        }
        if let Some(c) = find_transformer_clauses(&items[i]) {
            return Some(c);
        }
        i = i + 1;
    }
    None
}

/// The first position at or after `k` in `b` holding `c`, or `b.len()`.
pub open spec fn byte_index_from(b: Seq<u8>, k: int, c: u8) -> int
    decreases b.len() - k,
{
    if k < 0 || k >= b.len() {
        b.len() as int
    } else if b[k] == c {
        k
    } else {
        byte_index_from(b, k + 1, c)
    }
}

/// A pattern's classification: leading roles, body flag, and the number of
/// positions that classified to a known role.
pub struct PatternClass {
    pub leading: Seq<Role>,
    pub body: bool,
    pub matched: nat,
}

/// Classify pattern elements from `i` on, given the classification so far:
/// `...` pops the preceding element and opens the body; a symbol (its
/// `syntax-parse` class suffix `:…` stripped) classifies by name, a body
/// name ending the leading roles; a nested list is an arglist; anything
/// else takes an `Other` slot.
pub open spec fn pattern_from(params: Seq<Datum>, i: int, acc: PatternClass) -> PatternClass
    decreases params.len() - i,
{
    if i < 0 || i >= params.len() {
        acc
    } else {
        match params[i].kind {
            DatumKind::Symbol(s) => {
                let b = s.spec_bytes();
                if b == seq![46u8, 46, 46] {
                    PatternClass {
                        leading: if acc.leading.len() > 0 {
                            acc.leading.drop_last()
                        } else {
                            acc.leading
                        },
                        body: true,
                        matched: acc.matched + 1,
                    }
                } else {
                    match spec_classify_param(b.take(byte_index_from(b, 0, 58u8))) {
                        Some(Role::Body) => PatternClass { body: true, matched: acc.matched + 1, ..acc },
                        Some(role) => pattern_from(
                            params,
                            i + 1,
                            PatternClass { leading: acc.leading.push(role), matched: acc.matched + 1, ..acc },
                        ),
                        None => pattern_from(
                            params,
                            i + 1,
                            PatternClass { leading: acc.leading.push(Role::Other), ..acc },
                        ),
                    }
                }
            },
            DatumKind::List { .. } => pattern_from(
                params,
                i + 1,
                PatternClass { leading: acc.leading.push(Role::Arglist), matched: acc.matched + 1, ..acc },
            ),
            _ => pattern_from(params, i + 1, PatternClass { leading: acc.leading.push(Role::Other), ..acc }),
        }
    }
}

/// The classification of a pattern list `(_ p …)`; its first element, the
/// macro keyword slot, is not classified.
pub open spec fn spec_pattern(pattern: Datum) -> Option<PatternClass> {
    match pattern.kind {
        DatumKind::List { items, .. } => Some(
            pattern_from(items@, 1, PatternClass { leading: Seq::empty(), body: false, matched: 0 }),
        ),
        _ => None,
    }
}

/// Classify a macro input pattern `(_ p …)` into leading roles, a body flag,
/// and the number of positions that classified to a known role: a trailing
/// `X ...` ellipsis marks the body, a nested list is an arglist-shaped
/// sub-pattern, and a `syntax-parse` class suffix (`name:id`) is stripped.
/// `None` if the pattern is not a list.
fn classify_pattern(pattern: &Datum) -> (r: Option<(Vec<Role>, bool, usize)>)
    ensures
        match r {
            Some((leading, body, matched)) => spec_pattern(*pattern) == Some(
                PatternClass { leading: leading@, body, matched: matched as nat },
            ),
            None => spec_pattern(*pattern) is None,
        },
{
    let params = match pattern.items() {
        Some(p) => p,
        None => {
            return None;
        },
    };
    let mut leading: Vec<Role> = Vec::new();
    let mut body = false;
    let mut matched: usize = 0;
    // Index 0 is the macro-keyword slot (conventionally `_` or the name).
    let mut i: usize = 1;
    if params.len() == 0 {
        return Some((leading, body, matched));
    }
    while i < params.len()
        invariant
            1 <= i <= params.len(),
            matched < i,
            !body,
            spec_pattern(*pattern) == Some(
                pattern_from(params@, i as int, PatternClass { leading: leading@, body: false, matched: matched as nat }),
            ),
        decreases params.len() - i,
    {
        match params[i].kind {
            DatumKind::Symbol(s) => {
                let b = s.as_bytes();
                if b.len() == 3 && b[0] == 46 && b[1] == 46 && b[2] == 46 {
                    // `X ...`: the preceding element repeats — it is the body
                    // tail.
                    assert(b@ =~= seq![46u8, 46, 46]);
                    let ghost l0 = leading@;
                    leading.pop();
                    assert(leading@ =~= if l0.len() > 0 {
                        l0.drop_last()
                    } else {
                        l0
                    });
                    return Some((leading, true, matched + 1));
                }
                assert(b@ != seq![46u8, 46, 46]);
                // Strip a `syntax-parse` syntax-class suffix (`name:id`).
                let mut base: Vec<u8> = Vec::new();
                let mut k: usize = 0;
                assert(b@.take(0) =~= base@);
                while k < b.len() && b[k] != 58
                    invariant
                        k <= b.len(),
                        base@ == b@.take(k as int),
                        byte_index_from(b@, 0, 58u8) == byte_index_from(b@, k as int, 58u8),
                    decreases b.len() - k,
                {
                    base.push(b[k]);
                    assert(b@.take(k + 1) =~= b@.take(k as int).push(b@[k as int]));
                    k = k + 1;
                }
                match classify_param_bytes(base.as_slice()) {
                    Some(Role::Body) => {
                        return Some((leading, true, matched + 1));
                    },
                    Some(role) => {
                        leading.push(role);
                        matched = matched + 1;
                    },
                    None => {
                        leading.push(Role::Other);
                    },
                }
            },
            // A nested list in an argument position is an arglist-shaped
            // sub-pattern.
            DatumKind::List { .. } => {
                leading.push(Role::Arglist);
                matched = matched + 1;
            },
            _ => {
                leading.push(Role::Other);
            },
        }
        i = i + 1;
    }
    Some((leading, body, matched))
}

/// The spec of a Guile/Gauche `(define-macro (NAME arg … . body) …)` whose
/// items are `items`.
pub open spec fn spec_define_macro(items: Seq<Datum>) -> Option<HarvestedSpec> {
    if items.len() < 2 {
        None
    } else {
        match items[1].kind {
            DatumKind::List { items: sig, tail, .. } => {
                if sig.len() == 0 {
                    None
                } else {
                    match sig@[0].kind {
                        DatumKind::Symbol(name) => {
                            let c = spec_arglist(sig@.skip(1));
                            Some(
                                HarvestedSpec {
                                    name: name@,
                                    leading: c.leading,
                                    docstring: Docstring::Absent,
                                    body: c.body || tail is Some,
                                    confidence: if c.matched {
                                        Confidence::Inferred
                                    } else {
                                        Confidence::Weak
                                    },
                                },
                            )
                        },
                        _ => None,
                    }
                }
            },
            _ => None,
        }
    }
}

/// Harvest a Guile/Gauche `(define-macro (NAME arg … . body) …)`: the
/// signature is an ordinary arglist and a dotted tail is the body. The
/// procedural `(define-macro NAME (lambda …))` form is skipped.
fn harvest_define_macro(items: &[Datum]) -> (r: Option<FormSpec>)
    ensures
        match r {
            Some(spec) => spec_define_macro(items@) == Some(harvested(spec)) && spec.category is None
                && spec.dispatch is None,
            None => spec_define_macro(items@) is None,
        },
{
    if items.len() < 2 {
        return None;
    }
    let (sig, tail) = match &items[1].kind {
        DatumKind::List { items: sig, tail, .. } => (sig, tail),
        _ => {
            return None;
        },
    };
    if sig.len() == 0 {
        return None;
    }
    let name = match sig[0].as_symbol() {
        Some(n) => n,
        None => {
            return None;
        },
    };
    let rest = slice_from(sig.as_slice(), 1);
    let (leading, _doc, body, matched) = classify_arglist_params(rest);
    // `. body` — the dotted tail is the remainder.
    let body = body || tail.is_some();
    let confidence = if matched {
        Confidence::Inferred
    } else {
        Confidence::Weak
    };
    Some(FormSpec::new(name, leading, Docstring::Absent, body, confidence))
}

/// The items of `s` from `i` on.
fn slice_from<'a, 't>(s: &'a [Datum<'t>], i: usize) -> (r: &'a [Datum<'t>])
    requires
        i <= s.len(),
    ensures
        r@ == s@.skip(i as int),
{
    let (_a, b) = s.split_at(i);
    assert(b@ =~= s@.skip(i as int));
    b
}

/// Whether pattern classification `a` is richer than `b`: more classified
/// positions, then more leading roles.
pub open spec fn spec_richer(a: PatternClass, b: PatternClass) -> bool {
    a.matched > b.matched || (a.matched == b.matched && a.leading.len() > b.leading.len())
}

/// Whether pattern classification `a` is richer than `b`: more classified
/// positions, then more leading roles.
fn richer(a_matched: usize, a_len: usize, b_matched: usize, b_len: usize) -> (r: bool)
    ensures
        r == (a_matched > b_matched || (a_matched == b_matched && a_len > b_len)),
{
    a_matched > b_matched || (a_matched == b_matched && a_len > b_len)
}

/// The richest classification among the list patterns of `ps`; the first
/// wins a tie.
pub open spec fn best_pattern(ps: Seq<Datum>) -> Option<PatternClass>
    decreases ps.len(),
{
    if ps.len() == 0 {
        None
    } else {
        let prev = best_pattern(ps.drop_last());
        match spec_pattern(ps.last()) {
            None => prev,
            Some(c) => match prev {
                None => Some(c),
                Some(b) => if spec_richer(c, b) {
                    Some(c)
                } else {
                    prev
                },
            },
        }
    }
}

/// The input patterns of transformer clauses: each clause's first item
/// when it is a list.
pub open spec fn clause_patterns<'t>(clauses: Seq<Datum<'t>>) -> Seq<Datum<'t>>
    decreases clauses.len(),
{
    if clauses.len() == 0 {
        Seq::empty()
    } else {
        clause_patterns(clauses.drop_last()) + {
            let ci = list_items(clauses.last());
            if ci.len() > 0 && ci[0].kind is List {
                seq![ci[0]]
            } else {
                Seq::empty()
            }
        }
    }
}

/// The defined name in a Scheme definition's head argument: a bare symbol
/// or the head of a `(NAME …)` list.
pub open spec fn scheme_name(d: Datum) -> Option<Seq<char>> {
    match d.kind {
        DatumKind::Symbol(s) => Some(s@),
        DatumKind::List { items, .. } => if items.len() > 0 {
            match items@[0].kind {
                DatumKind::Symbol(s) => Some(s@),
                _ => None,
            }
        } else {
            None
        },
        _ => None,
    }
}

/// The spec named `name` from the richest of `patterns`.
pub open spec fn spec_from_patterns(name: Seq<char>, patterns: Seq<Datum>) -> Option<HarvestedSpec> {
    match best_pattern(patterns) {
        Some(c) => Some(
            HarvestedSpec {
                name,
                leading: c.leading,
                docstring: Docstring::Absent,
                body: c.body,
                confidence: if c.matched > 0 {
                    Confidence::Inferred
                } else {
                    Confidence::Weak
                },
            },
        ),
        None => None,
    }
}

/// `define-macro`.
pub open spec fn lit_define_macro() -> Seq<u8> {
    seq![100u8, 101, 102, 105, 110, 101, 45, 109, 97, 99, 114, 111]
}

/// `define-syntax-rule`.
pub open spec fn lit_define_syntax_rule() -> Seq<u8> {
    seq![100u8, 101, 102, 105, 110, 101, 45, 115, 121, 110, 116, 97, 120, 45, 114, 117, 108, 101]
}

/// `define-syntax`.
pub open spec fn lit_define_syntax() -> Seq<u8> {
    seq![100u8, 101, 102, 105, 110, 101, 45, 115, 121, 110, 116, 97, 120]
}

/// `define-syntax-parameter`.
pub open spec fn lit_define_syntax_parameter() -> Seq<u8> {
    seq![100u8, 101, 102, 105, 110, 101, 45, 115, 121, 110, 116, 97, 120, 45, 112, 97, 114, 97, 109, 101, 116, 101, 114]
}

/// The spec harvested from a Scheme-family macro definition: a
/// `define-macro` signature, the `(NAME pat …)` pattern of a
/// `define-syntax-rule`, or the clause patterns of the first transformer in
/// a `define-syntax` / `define-syntax-parameter` — the richest pattern
/// winning.
pub open spec fn spec_harvest_scheme(form: Datum) -> Option<HarvestedSpec> {
    let items = list_items(form);
    match head_bytes(form) {
        Some(h) => if h == lit_define_macro() {
            spec_define_macro(items)
        } else if h == lit_define_syntax_rule() {
            if items.len() < 2 {
                None
            } else {
                match scheme_name(items[1]) {
                    Some(n) => if items[1].kind is List {
                        spec_from_patterns(n, seq![items[1]])
                    } else {
                        None
                    },
                    None => None,
                }
            }
        } else if h == lit_define_syntax() || h == lit_define_syntax_parameter() {
            if items.len() < 2 {
                None
            } else {
                match scheme_name(items[1]) {
                    Some(n) => match first_clauses(items.skip(2)) {
                        Some(clauses) => spec_from_patterns(n, clause_patterns(clauses)),
                        None => None,
                    },
                    None => None,
                }
            }
        } else {
            None
        },
        None => None,
    }
}

/// The input patterns of the clauses of the first transformer among the
/// items after a definition's name.
fn transformer_patterns<'a, 't>(items: &'a [Datum<'t>]) -> (r: Option<Vec<&'a Datum<'t>>>)
    requires
        items.len() >= 2,
    ensures
        match r {
            Some(ps) => first_clauses(items@.skip(2)) matches Some(c) && deref_seq(ps@) == clause_patterns(c),
            None => first_clauses(items@.skip(2)) is None,
        },
{
    // The syntax-rules/-case/-parse clauses anywhere in the transformer
    // expression; each clause's input pattern is its first item, a list.
    let mut clauses: Option<&[Datum]> = None;
    let mut j: usize = 2;
    while j < items.len() && clauses.is_none()
        invariant
            2 <= j <= items.len(),
            match clauses {
                Some(c) => first_clauses(items@.skip(2)) == Some(c@),
                None => first_clauses(items@.skip(2)) == first_clauses(items@.skip(j as int)),
            },
        decreases items.len() - j,
    {
        proof {
            assert(items@.skip(j as int)[0] == items@[j as int]);
            assert(items@.skip(j as int).drop_first() =~= items@.skip(j + 1));
        }
        clauses = find_transformer_clauses(&items[j]);
        j = j + 1;
    }
    let clauses = match clauses {
        Some(c) => c,
        None => {
            assert(items@.skip(j as int) =~= Seq::<Datum>::empty());
            return None;
        },
    };
    let mut patterns: Vec<&Datum> = Vec::new();
    let mut c: usize = 0;
    assert(deref_seq(patterns@) =~= clause_patterns(clauses@.take(0)));
    while c < clauses.len()
        invariant
            c <= clauses.len(),
            deref_seq(patterns@) == clause_patterns(clauses@.take(c as int)),
        decreases clauses.len() - c,
    {
        assert(clauses@.take(c + 1).drop_last() =~= clauses@.take(c as int));
        if let Some(ci) = clauses[c].items() {
            if ci.len() > 0 && is_list_datum(&ci[0]) {
                patterns.push(&ci[0]);
            }
        }
        assert(deref_seq(patterns@) =~= clause_patterns(clauses@.take(c + 1)));
        c = c + 1;
    }
    assert(clauses@.take(clauses.len() as int) =~= clauses@);
    Some(patterns)
}

/// The richest classification among `patterns`; the first wins a tie.
fn best_of(patterns: &Vec<&Datum>) -> (r: Option<(Vec<Role>, bool, usize)>)
    ensures
        match r {
            Some((bl, bb, bm)) => best_pattern(deref_seq(patterns@)) == Some(
                PatternClass { leading: bl@, body: bb, matched: bm as nat },
            ),
            None => best_pattern(deref_seq(patterns@)) is None,
        },
{
    let ghost ps = deref_seq(patterns@);
    let mut best: Option<(Vec<Role>, bool, usize)> = None;
    let mut p: usize = 0;
    assert(ps.take(0) =~= Seq::<Datum>::empty());
    while p < patterns.len()
        invariant
            p <= patterns.len(),
            ps == deref_seq(patterns@),
            match best {
                Some((bl, bb, bm)) => best_pattern(ps.take(p as int)) == Some(
                    PatternClass { leading: bl@, body: bb, matched: bm as nat },
                ),
                None => best_pattern(ps.take(p as int)) is None,
            },
        decreases patterns.len() - p,
    {
        assert(ps.take(p + 1).drop_last() =~= ps.take(p as int));
        assert(ps.take(p + 1).last() == *patterns@[p as int]);
        if let Some((leading, body, matched)) = classify_pattern(patterns[p]) {
            let better = match &best {
                Some((bl, _, bm)) => richer(matched, leading.len(), *bm, bl.len()),
                None => true,
            };
            if better {
                best = Some((leading, body, matched));
            }
        }
        p = p + 1;
    }
    assert(ps.take(patterns.len() as int) =~= ps);
    best
}

/// Harvest a [`FormSpec`] from a Scheme-family macro definition by reading
/// its input pattern(s): `(define-syntax NAME (syntax-rules … (PATTERN
/// TEMPLATE) …))` (also `syntax-case` / `syntax-parse`, wherever the
/// transformer sits), `(define-syntax-rule (NAME pat …) TEMPLATE)`, and
/// `(define-macro (NAME arg … . body) …)`. The richest pattern wins. Scheme
/// has no docstrings and the category is unknown.
fn harvest_scheme_macro(form: &Datum) -> (r: Option<FormSpec>)
    ensures
        match r {
            Some(spec) => spec_harvest_scheme(*form) == Some(harvested(spec)) && spec.category is None
                && spec.dispatch is None,
            None => spec_harvest_scheme(*form) is None,
        },
{
    let (head, items) = match list_head(form) {
        Some(x) => x,
        None => {
            return None;
        },
    };
    let define_macro: [u8; 12] = [100, 101, 102, 105, 110, 101, 45, 109, 97, 99, 114, 111];  // `define-macro`
    let syntax_rule: [u8; 18] = [100, 101, 102, 105, 110, 101, 45, 115, 121, 110, 116, 97, 120, 45, 114, 117, 108, 101];  // `define-syntax-rule`
    let define_syntax: [u8; 13] = [100, 101, 102, 105, 110, 101, 45, 115, 121, 110, 116, 97, 120];  // `define-syntax`
    let syntax_param: [u8; 23] = [100, 101, 102, 105, 110, 101, 45, 115, 121, 110, 116, 97, 120, 45, 112, 97, 114, 97, 109, 101, 116, 101, 114];  // `define-syntax-parameter`
    assert(define_macro@ =~= lit_define_macro());
    assert(syntax_rule@ =~= lit_define_syntax_rule());
    assert(define_syntax@ =~= lit_define_syntax());
    assert(syntax_param@ =~= lit_define_syntax_parameter());
    if names(head, define_macro.as_slice()) {
        return harvest_define_macro(items);
    }
    let mut patterns: Vec<&Datum> = Vec::new();
    let name: &str;
    if names(head, syntax_rule.as_slice()) {
        // The pattern is the name-plus-args list.
        if items.len() < 2 {
            return None;
        }
        let pattern = &items[1];
        name = match pattern.items() {
            Some(p) => if p.len() > 0 {
                match p[0].as_symbol() {
                    Some(n) => n,
                    None => {
                        return None;
                    },
                }
            } else {
                return None;
            },
            None => {
                return None;
            },
        };
        patterns.push(pattern);
        assert(deref_seq(patterns@) =~= seq![items@[1]]);
    } else if names(head, define_syntax.as_slice()) || names(head, syntax_param.as_slice()) {
        if items.len() < 2 {
            return None;
        }
        name = match scheme_def_name(&items[1]) {
            Some(n) => n,
            None => {
                return None;
            },
        };
        patterns = match transformer_patterns(items) {
            Some(ps) => ps,
            None => {
                return None;
            },
        };
    } else {
        return None;
    }
    let (leading, body, matched) = match best_of(&patterns) {
        Some(b) => b,
        None => {
            return None;
        },
    };
    let confidence = if matched > 0 {
        Confidence::Inferred
    } else {
        Confidence::Weak
    };
    Some(FormSpec::new(name, leading, Docstring::Absent, body, confidence))
}

/// Whether `dialect` defines macros with `syntax-rules` patterns rather than
/// an arglist — the Scheme family.
pub open spec fn is_syntax_rules_dialect(d: Dialect) -> bool {
    d is Scheme || d is Guile || d is Gauche || d is Mosh || d is Gambit || d is SchemeSuperset || d is Racket
}

/// The spec harvested from one form of `dialect` source: by its
/// `syntax-rules` patterns in the Scheme family, by the arglist heuristic in
/// the macro-defining Lisps, none elsewhere.
pub open spec fn harvested_form(d: Datum, dialect: Dialect) -> Option<HarvestedSpec> {
    if is_syntax_rules_dialect(dialect) {
        spec_harvest_scheme(d)
    } else {
        match spec_profile(dialect) {
            Some((doc, declare, meta)) => spec_harvest_defmacro(d, spec_macro_heads(dialect), doc, declare, meta),
            None => None,
        }
    }
}

/// The specs harvested from `data` in order, keyed by name, a later one
/// replacing an earlier one of the same name.
pub open spec fn harvest_fold(data: Seq<Datum>, dialect: Dialect) -> Map<Seq<char>, HarvestedSpec>
    decreases data.len(),
{
    if data.len() == 0 {
        Map::empty()
    } else {
        let m = harvest_fold(data.drop_last(), dialect);
        match harvested_form(data.last(), dialect) {
            Some(h) => m.insert(h.name, h),
            None => m,
        }
    }
}

/// The number of forms of `data` that yield a spec.
pub open spec fn harvest_count(data: Seq<Datum>, dialect: Dialect) -> nat
    decreases data.len(),
{
    if data.len() == 0 {
        0
    } else {
        harvest_count(data.drop_last(), dialect) + if harvested_form(data.last(), dialect) is Some {
            1nat
        } else {
            0nat
        }
    }
}

/// Whether registry view `after` is `before` with the specs harvested from
/// `data` layered on top.
pub open spec fn harvest_layered(
    before: Map<Seq<char>, FormSpec>,
    after: Map<Seq<char>, FormSpec>,
    data: Seq<Datum>,
    dialect: Dialect,
) -> bool {
    exists|added: Map<Seq<char>, FormSpec>|
        {
            &&& after == before.union_prefer_right(added)
            &&& added.map_values(|s: FormSpec| harvested(s)) == harvest_fold(data, dialect)
            &&& forall|k: Seq<char>| #[trigger] added.contains_key(k) ==> added[k].category is None
                && added[k].dispatch is None
        }
}

/// Harvest definition-form specs from the forms `data` of `dialect` source
/// into `reg`: each form that yields a spec is inserted in order, a later
/// one replacing an earlier one of the same name. Returns the number of
/// forms that yielded a spec.
pub fn harvest_forms(data: &[Datum], dialect: Dialect, reg: &mut Registry) -> (n: usize)
    requires
        old(reg).wf(),
    ensures
        final(reg).wf(),
        n == harvest_count(data@, dialect),
        harvest_layered(old(reg)@, final(reg)@, data@, dialect),
{
    let syntax_rules = match dialect {
        Dialect::Scheme | Dialect::Guile | Dialect::Gauche | Dialect::Mosh | Dialect::Gambit
        | Dialect::SchemeSuperset | Dialect::Racket => true,
        _ => false,
    };
    let profile = if syntax_rules {
        None
    } else {
        harvest_profile(dialect)
    };
    let ghost mut added: Map<Seq<char>, FormSpec> = Map::empty();
    let mut count: usize = 0;
    let mut i: usize = 0;
    assert(old(reg)@.union_prefer_right(added) =~= old(reg)@);
    assert(added.map_values(|s: FormSpec| harvested(s)) =~= harvest_fold(data@.take(0), dialect));
    while i < data.len()
        invariant
            i <= data.len(),
            reg.wf(),
            count <= i,
            count == harvest_count(data@.take(i as int), dialect),
            reg@ == old(reg)@.union_prefer_right(added),
            added.map_values(|s: FormSpec| harvested(s)) == harvest_fold(data@.take(i as int), dialect),
            forall|k: Seq<char>| #[trigger] added.contains_key(k) ==> added[k].category is None
                && added[k].dispatch is None,
            syntax_rules == is_syntax_rules_dialect(dialect),
            !syntax_rules ==> match profile {
                Some(h) => spec_profile(dialect) == Some((h.doc_policy, h.use_declare, h.clojure_meta))
                    && heads_view(h.macro_heads@) == spec_macro_heads(dialect),
                None => spec_profile(dialect) is None,
            },
        decreases data.len() - i,
    {
        proof {
            assert(data@.take(i + 1).drop_last() =~= data@.take(i as int));
            assert(data@.take(i + 1).last() == data@[i as int]);
        }
        let got = if syntax_rules {
            harvest_scheme_macro(&data[i])
        } else {
            match &profile {
                Some(h) => harvest_defmacro(&data[i], h),
                None => None,
            }
        };
        assert(match got {
            Some(spec) => harvested_form(data@[i as int], dialect) == Some(harvested(spec))
                && spec.category is None && spec.dispatch is None,
            None => harvested_form(data@[i as int], dialect) is None,
        });
        match got {
            Some(spec) => {
                let ghost key = spec.head@;
                let ghost before = added;
                reg.insert(spec);
                proof {
                    added = added.insert(key, spec);
                    assert(reg@ =~= old(reg)@.union_prefer_right(added));
                    assert(added.map_values(|s: FormSpec| harvested(s)) =~= before.map_values(
                        |s: FormSpec| harvested(s),
                    ).insert(key, harvested(spec)));
                }
                count = count + 1;
            },
            None => {},
        }
        i = i + 1;
    }
    assert(data@.take(data.len() as int) =~= data@);
    count
}

/// Harvest definition-form specs from Emacs Lisp `source` into `reg` —
/// [`harvest_source_for`] with [`Dialect::EmacsLisp`].
pub fn harvest_source(source: &str, reg: &mut Registry) -> (n: usize)
    requires
        source.spec_bytes().len() < u32::MAX,
        old(reg).wf(),
    ensures
        final(reg).wf(),
        exists|data: Seq<Datum>|
            {
                &&& data_wf(data, source.spec_bytes())
                &&& shapes_of(data) == read_top(
                    stream_of(source.spec_bytes(), spec_dialect_options(Dialect::EmacsLisp)),
                    0,
                ).data
                &&& n == harvest_count(data, Dialect::EmacsLisp)
                &&& harvest_layered(old(reg)@, final(reg)@, data, Dialect::EmacsLisp)
            },
{
    harvest_source_for(source, Dialect::EmacsLisp, reg)
}

/// Harvest definition-form specs from `dialect` `source` into `reg`.
///
/// Two derivations, by dialect: the arglist heuristic for the
/// macro-defining Lisps whose def-macros carry an arglist (roles from the
/// arglist parameter names, plus elisp `declare` / Clojure metadata), and
/// the `syntax-rules` pattern harvester for the Scheme family (roles from
/// each rule's input pattern). The source is read with the dialect's
/// reader; its forms are harvested as [`harvest_forms`] does. Returns the
/// number of specs added; `0` for dialects with no harvestable def-macro
/// form (EDN and AutoLISP).
pub fn harvest_source_for(source: &str, dialect: Dialect, reg: &mut Registry) -> (n: usize)
    requires
        source.spec_bytes().len() < u32::MAX,
        old(reg).wf(),
    ensures
        final(reg).wf(),
        exists|data: Seq<Datum>|
            {
                &&& data_wf(data, source.spec_bytes())
                &&& shapes_of(data) == read_top(
                    stream_of(source.spec_bytes(), spec_dialect_options(dialect)),
                    0,
                ).data
                &&& n == harvest_count(data, dialect)
                &&& harvest_layered(old(reg)@, final(reg)@, data, dialect)
            },
{
    let parsed = parse(source, &Options::for_dialect(dialect));
    harvest_forms(parsed.data.as_slice(), dialect, reg)
}


/// Every spec of `m` is filed under its own head.
pub open spec fn keyed_by_head(m: Map<Seq<char>, FormSpec>) -> bool {
    forall|k: Seq<char>| #[trigger] m.contains_key(k) ==> m[k].head@ == k
}

/// Every entry of `m` is a bundled spec.
pub open spec fn all_builtin(m: Map<Seq<char>, FormSpec>) -> bool {
    forall|k: Seq<char>| #[trigger] m.contains_key(k) ==> m[k].confidence == Confidence::Builtin
}

/// What a [`FormSpec`] says apart from its head.
pub struct FormSpecView {
    pub leading: Seq<Role>,
    pub docstring: Docstring,
    pub body: bool,
    pub category: Option<Category>,
    pub dispatch: Option<Dispatch>,
    pub confidence: Confidence,
}

/// The view of a spec.
pub open spec fn form_view(s: FormSpec) -> FormSpecView {
    FormSpecView {
        leading: s.leading@,
        docstring: s.docstring,
        body: s.body,
        category: s.category,
        dispatch: s.dispatch,
        confidence: s.confidence,
    }
}

/// A registry's contents, by head.
pub open spec fn forms_view(m: Map<Seq<char>, FormSpec>) -> Map<Seq<char>, FormSpecView> {
    m.map_values(|s: FormSpec| form_view(s))
}

/// A bundled definition form.
pub open spec fn def_view(leading: Seq<Role>, docstring: Docstring, body: bool, category: Option<Category>) -> FormSpecView {
    FormSpecView { leading, docstring, body, category, dispatch: None, confidence: Confidence::Builtin }
}

/// A bundled dispatch/method form: `NAME` then a dispatch signature.
pub open spec fn method_view(dispatch: Dispatch, docstring: Docstring, category: Category) -> FormSpecView {
    FormSpecView {
        leading: seq![Role::Name],
        docstring,
        body: true,
        category: Some(category),
        dispatch: Some(dispatch),
        confidence: Confidence::Builtin,
    }
}

/// The contents of the emacs lisp table.
pub open spec fn spec_emacs_lisp_builtins() -> Map<Seq<char>, FormSpecView> {
    Map::<Seq<char>, FormSpecView>::empty()
        .insert("defun"@, def_view(seq![Role::Name, Role::Arglist], Docstring::LeadingOrLone, true, Some(Category::Function)))
        .insert("defsubst"@, def_view(seq![Role::Name, Role::Arglist], Docstring::LeadingOrLone, true, Some(Category::Function)))
        .insert("cl-defun"@, def_view(seq![Role::Name, Role::Arglist], Docstring::LeadingOrLone, true, Some(Category::Function)))
        .insert("cl-defsubst"@, def_view(seq![Role::Name, Role::Arglist], Docstring::LeadingOrLone, true, Some(Category::Function)))
        .insert("define-inline"@, def_view(seq![Role::Name, Role::Arglist], Docstring::LeadingOrLone, true, Some(Category::Function)))
        .insert("defmacro"@, def_view(seq![Role::Name, Role::Arglist], Docstring::LeadingOrLone, true, Some(Category::Macro)))
        .insert("cl-defmacro"@, def_view(seq![Role::Name, Role::Arglist], Docstring::LeadingOrLone, true, Some(Category::Macro)))
        .insert("cl-defgeneric"@, def_view(seq![Role::Name, Role::Arglist], Docstring::LeadingOrLone, true, Some(Category::Generic)))
        .insert("cl-defmethod"@, method_view(Dispatch::Qualifiers, Docstring::LeadingOrLone, Category::Method))
        .insert("defvar"@, def_view(seq![Role::Name, Role::Other], Docstring::LeadingOrLone, false, Some(Category::Variable)))
        .insert("defvar-local"@, def_view(seq![Role::Name, Role::Other], Docstring::LeadingOrLone, false, Some(Category::Variable)))
        .insert("defconst"@, def_view(seq![Role::Name, Role::Other], Docstring::LeadingOrLone, false, Some(Category::Constant)))
        .insert("defcustom"@, def_view(seq![Role::Name, Role::Other], Docstring::LeadingOrLone, true, Some(Category::Variable)))
        .insert("defface"@, def_view(seq![Role::Name, Role::Other], Docstring::LeadingOrLone, true, Some(Category::Variable)))
        .insert("defgroup"@, def_view(seq![Role::Name, Role::Other], Docstring::LeadingOrLone, true, None))
        .insert("defvar-keymap"@, def_view(seq![Role::Name], Docstring::Absent, true, Some(Category::Variable)))
        .insert("define-minor-mode"@, def_view(seq![Role::Name], Docstring::LeadingOrLone, true, None))
        .insert("define-derived-mode"@, def_view(seq![Role::Name, Role::Other, Role::Other], Docstring::LeadingOrLone, true, None))
        .insert("define-global-minor-mode"@, def_view(seq![Role::Name], Docstring::LeadingOrLone, true, None))
        .insert("cl-defstruct"@, def_view(seq![Role::Name], Docstring::LeadingOrLone, true, Some(Category::Struct)))
        .insert("ert-deftest"@, def_view(seq![Role::Name, Role::Arglist], Docstring::LeadingOrLone, true, Some(Category::Test)))
}

/// The contents of the scheme table.
pub open spec fn spec_scheme_builtins() -> Map<Seq<char>, FormSpecView> {
    Map::<Seq<char>, FormSpecView>::empty()
        .insert("define"@, def_view(seq![Role::Name], Docstring::Absent, true, None))
        .insert("define-values"@, def_view(seq![Role::Name], Docstring::Absent, true, None))
        .insert("define-syntax"@, def_view(seq![Role::Name], Docstring::Absent, true, Some(Category::Macro)))
        .insert("define-record-type"@, def_view(seq![Role::Name], Docstring::Absent, true, Some(Category::Type)))
        .insert("define-library"@, def_view(seq![Role::Name], Docstring::Absent, true, None))
}

/// The contents of the scheme extended additions table.
pub open spec fn spec_scheme_extended_extra() -> Map<Seq<char>, FormSpecView> {
    Map::<Seq<char>, FormSpecView>::empty()
        .insert("define-class"@, def_view(seq![Role::Name], Docstring::Absent, true, Some(Category::Class)))
        .insert("define-generic"@, def_view(seq![Role::Name], Docstring::Absent, false, Some(Category::Generic)))
        .insert("define-constant"@, def_view(seq![Role::Name, Role::Other], Docstring::Absent, false, Some(Category::Constant)))
        .insert("define-inline"@, def_view(seq![Role::Name], Docstring::Absent, true, None))
        .insert("define-syntax-rule"@, def_view(seq![Role::Name], Docstring::Absent, true, Some(Category::Macro)))
        .insert("define*"@, def_view(seq![Role::Name], Docstring::Absent, true, None))
        .insert("define-public"@, def_view(seq![Role::Name], Docstring::Absent, true, None))
}

/// The contents of the racket additions table.
pub open spec fn spec_racket_extra() -> Map<Seq<char>, FormSpecView> {
    Map::<Seq<char>, FormSpecView>::empty()
        .insert("struct"@, def_view(seq![Role::Name], Docstring::Absent, true, Some(Category::Struct)))
        .insert("define-syntax-rule"@, def_view(seq![Role::Name], Docstring::Absent, true, Some(Category::Macro)))
}

/// The contents of the common lisp table.
pub open spec fn spec_common_lisp_builtins() -> Map<Seq<char>, FormSpecView> {
    Map::<Seq<char>, FormSpecView>::empty()
        .insert("defun"@, def_view(seq![Role::Name, Role::Arglist], Docstring::Leading, true, Some(Category::Function)))
        .insert("defmacro"@, def_view(seq![Role::Name, Role::Arglist], Docstring::Leading, true, Some(Category::Macro)))
        .insert("defgeneric"@, def_view(seq![Role::Name, Role::Arglist], Docstring::Absent, true, Some(Category::Generic)))
        .insert("defmethod"@, method_view(Dispatch::Qualifiers, Docstring::Leading, Category::Method))
        .insert("defvar"@, def_view(seq![Role::Name, Role::Other], Docstring::LeadingOrLone, false, Some(Category::Variable)))
        .insert("defparameter"@, def_view(seq![Role::Name, Role::Other], Docstring::LeadingOrLone, false, Some(Category::Variable)))
        .insert("defconstant"@, def_view(seq![Role::Name, Role::Other], Docstring::LeadingOrLone, false, Some(Category::Constant)))
        .insert("defclass"@, def_view(seq![Role::Name], Docstring::Absent, true, Some(Category::Class)))
        .insert("define-condition"@, def_view(seq![Role::Name], Docstring::Absent, true, Some(Category::Class)))
        .insert("defstruct"@, def_view(seq![Role::Name], Docstring::Leading, true, Some(Category::Struct)))
        .insert("deftype"@, def_view(seq![Role::Name, Role::Arglist], Docstring::Leading, true, Some(Category::Type)))
        .insert("defpackage"@, def_view(seq![Role::Name], Docstring::Absent, true, None))
}

/// The contents of the clojure table.
pub open spec fn spec_clojure_builtins() -> Map<Seq<char>, FormSpecView> {
    Map::<Seq<char>, FormSpecView>::empty()
        .insert("defn"@, def_view(seq![Role::Name], Docstring::Leading, true, Some(Category::Function)))
        .insert("defn-"@, def_view(seq![Role::Name], Docstring::Leading, true, Some(Category::Function)))
        .insert("defmacro"@, def_view(seq![Role::Name], Docstring::Leading, true, Some(Category::Macro)))
        .insert("def"@, def_view(seq![Role::Name], Docstring::Leading, true, None))
        .insert("defonce"@, def_view(seq![Role::Name], Docstring::Absent, true, None))
        .insert("defmulti"@, def_view(seq![Role::Name], Docstring::Leading, true, Some(Category::Generic)))
        .insert("defmethod"@, method_view(Dispatch::Value, Docstring::Absent, Category::Method))
        .insert("defprotocol"@, def_view(seq![Role::Name], Docstring::Leading, true, Some(Category::Generic)))
        .insert("definterface"@, def_view(seq![Role::Name], Docstring::Absent, true, Some(Category::Type)))
        .insert("defrecord"@, def_view(seq![Role::Name], Docstring::Absent, true, Some(Category::Struct)))
        .insert("deftype"@, def_view(seq![Role::Name], Docstring::Absent, true, None))
        .insert("deftest"@, def_view(seq![Role::Name], Docstring::Absent, true, Some(Category::Test)))
        .insert("ns"@, def_view(seq![Role::Name], Docstring::Leading, true, None))
}

/// The contents of the fennel table.
pub open spec fn spec_fennel_builtins() -> Map<Seq<char>, FormSpecView> {
    Map::<Seq<char>, FormSpecView>::empty()
        .insert("fn"@, def_view(seq![Role::Name, Role::Arglist], Docstring::Leading, true, Some(Category::Function)))
        .insert("lambda"@, def_view(seq![Role::Name, Role::Arglist], Docstring::Leading, true, Some(Category::Function)))
        .insert("λ"@, def_view(seq![Role::Name, Role::Arglist], Docstring::Leading, true, Some(Category::Function)))
        .insert("macro"@, def_view(seq![Role::Name, Role::Arglist], Docstring::Leading, true, Some(Category::Macro)))
        .insert("macros"@, def_view(seq![Role::Name], Docstring::Absent, true, Some(Category::Macro)))
        .insert("local"@, def_view(seq![Role::Name], Docstring::Absent, true, Some(Category::Variable)))
        .insert("var"@, def_view(seq![Role::Name], Docstring::Absent, true, Some(Category::Variable)))
        .insert("global"@, def_view(seq![Role::Name], Docstring::Absent, true, Some(Category::Variable)))
}

/// The contents of the janet table.
pub open spec fn spec_janet_builtins() -> Map<Seq<char>, FormSpecView> {
    Map::<Seq<char>, FormSpecView>::empty()
        .insert("defn"@, def_view(seq![Role::Name], Docstring::Leading, true, Some(Category::Function)))
        .insert("defn-"@, def_view(seq![Role::Name], Docstring::Leading, true, Some(Category::Function)))
        .insert("defmacro"@, def_view(seq![Role::Name], Docstring::Leading, true, Some(Category::Macro)))
        .insert("defmacro-"@, def_view(seq![Role::Name], Docstring::Leading, true, Some(Category::Macro)))
        .insert("def"@, def_view(seq![Role::Name], Docstring::Leading, true, None))
        .insert("def-"@, def_view(seq![Role::Name], Docstring::Leading, true, None))
        .insert("var"@, def_view(seq![Role::Name], Docstring::Leading, true, Some(Category::Variable)))
        .insert("var-"@, def_view(seq![Role::Name], Docstring::Leading, true, Some(Category::Variable)))
}

/// The contents of the hy table.
pub open spec fn spec_hy_builtins() -> Map<Seq<char>, FormSpecView> {
    Map::<Seq<char>, FormSpecView>::empty()
        .insert("defn"@, def_view(seq![Role::Name, Role::Arglist], Docstring::LeadingOrLone, true, Some(Category::Function)))
        .insert("defmacro"@, def_view(seq![Role::Name, Role::Arglist], Docstring::LeadingOrLone, true, Some(Category::Macro)))
        .insert("defclass"@, def_view(seq![Role::Name], Docstring::LeadingOrLone, true, Some(Category::Class)))
        .insert("setv"@, def_view(seq![Role::Name], Docstring::Absent, true, None))
}

/// The contents of the lfe table.
pub open spec fn spec_lfe_builtins() -> Map<Seq<char>, FormSpecView> {
    Map::<Seq<char>, FormSpecView>::empty()
        .insert("defun"@, def_view(seq![Role::Name, Role::Arglist], Docstring::Leading, true, Some(Category::Function)))
        .insert("defmacro"@, def_view(seq![Role::Name, Role::Arglist], Docstring::Leading, true, Some(Category::Macro)))
        .insert("defrecord"@, def_view(seq![Role::Name], Docstring::Absent, true, Some(Category::Struct)))
        .insert("defmodule"@, def_view(seq![Role::Name], Docstring::Absent, true, None))
}

/// The contents of the islisp table.
pub open spec fn spec_islisp_builtins() -> Map<Seq<char>, FormSpecView> {
    Map::<Seq<char>, FormSpecView>::empty()
        .insert("defun"@, def_view(seq![Role::Name, Role::Arglist], Docstring::Absent, true, Some(Category::Function)))
        .insert("defmacro"@, def_view(seq![Role::Name, Role::Arglist], Docstring::Absent, true, Some(Category::Macro)))
        .insert("defgeneric"@, def_view(seq![Role::Name, Role::Arglist], Docstring::Absent, true, Some(Category::Generic)))
        .insert("defmethod"@, method_view(Dispatch::Qualifiers, Docstring::Absent, Category::Method))
        .insert("defclass"@, def_view(seq![Role::Name], Docstring::Absent, true, Some(Category::Class)))
        .insert("defconstant"@, def_view(seq![Role::Name], Docstring::Absent, true, Some(Category::Constant)))
        .insert("defglobal"@, def_view(seq![Role::Name], Docstring::Absent, true, Some(Category::Variable)))
        .insert("defdynamic"@, def_view(seq![Role::Name], Docstring::Absent, true, Some(Category::Variable)))
}

/// The contents of the autolisp table.
pub open spec fn spec_autolisp_builtins() -> Map<Seq<char>, FormSpecView> {
    Map::<Seq<char>, FormSpecView>::empty()
        .insert("defun"@, def_view(seq![Role::Name, Role::Arglist], Docstring::Absent, true, Some(Category::Function)))
}

/// The leading roles `[Name]`.
fn name_only() -> (v: Vec<Role>)
    ensures
        v@ == seq![Role::Name],
{
    let v = vec![Role::Name];
    assert(v@ =~= seq![Role::Name]);
    v
}

/// The leading roles `[Name, Arglist]`.
fn name_arglist() -> (v: Vec<Role>)
    ensures
        v@ == seq![Role::Name, Role::Arglist],
{
    let v = vec![Role::Name, Role::Arglist];
    assert(v@ =~= seq![Role::Name, Role::Arglist]);
    v
}

/// The leading roles `[Name, Other]`.
fn name_other() -> (v: Vec<Role>)
    ensures
        v@ == seq![Role::Name, Role::Other],
{
    let v = vec![Role::Name, Role::Other];
    assert(v@ =~= seq![Role::Name, Role::Other]);
    v
}

/// The leading roles `[Name, Other, Other]`.
fn name_other_other() -> (v: Vec<Role>)
    ensures
        v@ == seq![Role::Name, Role::Other, Role::Other],
{
    let v = vec![Role::Name, Role::Other, Role::Other];
    assert(v@ =~= seq![Role::Name, Role::Other, Role::Other]);
    v
}

/// A small builder for a bundled per-dialect registry: each entry is a
/// `Confidence::Builtin` [`FormSpec`] with an optional [`Category`] hint.
struct Builtins {
    reg: Registry,
}

impl Builtins {
    fn new() -> (b: Self)
        ensures
            b.reg.wf(),
            b.reg@ == Map::<Seq<char>, FormSpec>::empty(),
            forms_view(b.reg@) == Map::<Seq<char>, FormSpecView>::empty(),
    {
        let b = Builtins { reg: Registry::new() };
        assert(forms_view(b.reg@) =~= Map::<Seq<char>, FormSpecView>::empty());
        b
    }

    /// Register `head` with the given leading roles, docstring policy, body
    /// flag, and optional category hint.
    fn def(&mut self, head: &str, leading: Vec<Role>, doc: Docstring, body: bool, category: Option<Category>)
        requires
            old(self).reg.wf(),
            all_builtin(old(self).reg@),
        ensures
            final(self).reg.wf(),
            all_builtin(final(self).reg@),
            final(self).reg@.contains_key(head@),
            forms_view(final(self).reg@) == forms_view(old(self).reg@).insert(
                head@,
                def_view(leading@, doc, body, category),
            ),
    {
        let mut spec = FormSpec::new(head, leading, doc, body, Confidence::Builtin);
        spec.category = category;
        let ghost before = self.reg@;
        self.reg.insert(spec);
        assert(forms_view(self.reg@) =~= forms_view(before).insert(head@, form_view(spec)));
    }

    /// Register a dispatch/method form: `NAME` then a dispatch signature.
    fn method(&mut self, head: &str, dispatch: Dispatch, doc: Docstring, category: Category)
        requires
            old(self).reg.wf(),
            all_builtin(old(self).reg@),
        ensures
            final(self).reg.wf(),
            all_builtin(final(self).reg@),
            final(self).reg@.contains_key(head@),
            forms_view(final(self).reg@) == forms_view(old(self).reg@).insert(
                head@,
                method_view(dispatch, doc, category),
            ),
    {
        let leading = vec![Role::Name];
        assert(leading@ =~= seq![Role::Name]);
        let mut spec = FormSpec::new(head, leading, doc, true, Confidence::Builtin);
        spec.category = Some(category);
        spec.dispatch = Some(dispatch);
        let ghost before = self.reg@;
        self.reg.insert(spec);
        assert(forms_view(self.reg@) =~= forms_view(before).insert(head@, form_view(spec)));
    }
}

/// Layer `extra` over `base`, keeping every entry bundled.
fn layered(base: Registry, extra: Registry) -> (r: Registry)
    requires
        base.wf(),
        extra.wf(),
        all_builtin(base@),
        all_builtin(extra@),
    ensures
        r.wf(),
        all_builtin(r@),
        keyed_by_head(r@),
        r@ == base@.union_prefer_right(extra@),
        forms_view(r@) == forms_view(base@).union_prefer_right(forms_view(extra@)),
        (exists|k: Seq<char>| base@.contains_key(k)) ==> exists|k: Seq<char>| r@.contains_key(k),
{
    let mut reg = base;
    reg.merge(extra);
    assert(forms_view(reg@) =~= forms_view(base@).union_prefer_right(forms_view(extra@)));
    proof {
        if exists|k: Seq<char>| base@.contains_key(k) {
            let k = choose|k: Seq<char>| base@.contains_key(k);
            assert(reg@.contains_key(k));
        }
        reg.lemma_keyed_by_head();
    }
    reg
}

/// Scheme's core plus the implementation-common forms of the extended family.
fn scheme_extended_builtins() -> (r: Registry)
    ensures
        r.wf(),
        all_builtin(r@),
        keyed_by_head(r@),
        exists|k: Seq<char>| r@.contains_key(k),
        forms_view(r@) == spec_scheme_builtins().union_prefer_right(spec_scheme_extended_extra()),
{
    layered(scheme_builtins(), scheme_extended_extra())
}

/// Scheme's core plus Racket's `struct` and `define-syntax-rule`.
fn racket_builtins() -> (r: Registry)
    ensures
        r.wf(),
        all_builtin(r@),
        keyed_by_head(r@),
        exists|k: Seq<char>| r@.contains_key(k),
        forms_view(r@) == spec_scheme_builtins().union_prefer_right(spec_racket_extra()),
{
    layered(scheme_builtins(), racket_extra())
}

/// The bundled core's contents for `dialect`: the Scheme family layers
/// implementation-common forms (or Racket's) over the R7RS core, Phel
/// shares Clojure's, EDN has none.
pub open spec fn spec_bundled_registry(dialect: Dialect) -> Map<Seq<char>, FormSpecView> {
    match dialect {
        Dialect::Scheme => spec_scheme_builtins(),
        Dialect::Guile | Dialect::Gauche | Dialect::Mosh | Dialect::Gambit | Dialect::SchemeSuperset => {
            spec_scheme_builtins().union_prefer_right(spec_scheme_extended_extra())
        },
        Dialect::Racket => spec_scheme_builtins().union_prefer_right(spec_racket_extra()),
        Dialect::CommonLisp => spec_common_lisp_builtins(),
        Dialect::EmacsLisp => spec_emacs_lisp_builtins(),
        Dialect::Clojure | Dialect::Phel => spec_clojure_builtins(),
        Dialect::Fennel => spec_fennel_builtins(),
        Dialect::Janet => spec_janet_builtins(),
        Dialect::Hy => spec_hy_builtins(),
        Dialect::Lfe => spec_lfe_builtins(),
        Dialect::Islisp => spec_islisp_builtins(),
        Dialect::AutoLisp => spec_autolisp_builtins(),
        Dialect::Edn => Map::empty(),
    }
}

/// The bundled conservative core [`Registry`] for `dialect`.
///
/// Only the high-confidence, uncontested def-forms are included; a project's
/// long tail stays with the consumer, composed on top of this core. EDN, a
/// data-only dialect, has no definitions and returns an empty registry.
pub fn bundled_registry(dialect: Dialect) -> (r: Registry)
    ensures
        r.wf(),
        all_builtin(r@),
        keyed_by_head(r@),
        dialect == Dialect::Edn <==> r@ == Map::<Seq<char>, FormSpec>::empty(),
        forms_view(r@) == spec_bundled_registry(dialect),
{
    match dialect {
        Dialect::Scheme => scheme_builtins(),
        Dialect::Guile | Dialect::Gauche | Dialect::Mosh | Dialect::Gambit | Dialect::SchemeSuperset => {
            scheme_extended_builtins()
        },
        Dialect::Racket => racket_builtins(),
        Dialect::CommonLisp => common_lisp_builtins(),
        Dialect::EmacsLisp => emacs_lisp_builtins(),
        Dialect::Clojure => clojure_builtins(),
        Dialect::Phel => clojure_builtins(),
        Dialect::Fennel => fennel_builtins(),
        Dialect::Janet => janet_builtins(),
        Dialect::Hy => hy_builtins(),
        Dialect::Lfe => lfe_builtins(),
        Dialect::Islisp => islisp_builtins(),
        Dialect::AutoLisp => autolisp_builtins(),
        Dialect::Edn => {
            let r = Registry::new();
            assert(forms_view(r@) =~= Map::<Seq<char>, FormSpecView>::empty());
            r
        },
    }
}

/// The roles a `(HEAD NAME ARGLIST x …)` form of at least four items takes
/// under a definition spec with leading `NAME ARGLIST`, a body, no dispatch
/// and docstring policy `doc`: one role per item, and the third argument
/// `x` a docstring exactly where the policy accepts it there.
proof fn lemma_name_arglist_roles(items: Seq<Datum>, spec: FormSpec, doc: Docstring, roles: Seq<Role>)
    requires
        spec.leading@ == seq![Role::Name, Role::Arglist],
        spec.docstring == doc,
        spec.body,
        spec.dispatch == None::<Dispatch>,
        items.len() >= 4,
        spec_roles(items, spec) == Some(roles),
    ensures
        roles.len() == items.len(),
        roles[3] == (if doc_accepted(items, doc, 3) {
            Role::Docstring
        } else {
            body_role(items[3])
        }),
{
    assert(leading_count(spec, items.len() as int) == 2);
    assert(spec.leading@.take(2) =~= seq![Role::Name, Role::Arglist]);
    let acc = doc_accepted(items, doc, 3);
    let i2: int = if acc {
        4
    } else {
        3
    };
    let r3 = items.skip(i2).map_values(|d: Datum| body_role(d));
    let r2: Seq<Role> = if acc {
        seq![Role::Docstring]
    } else {
        Seq::empty()
    };
    let r0 = seq![Role::Keyword] + seq![Role::Name, Role::Arglist];
    assert(roles =~= r0 + Seq::<Role>::empty() + r2 + r3);
    if !acc {
        assert(r3[0] == body_role(items[3]));
    }
}

/// Under the bundled Common Lisp registry, in a `defun` or `defmacro` form
/// `(defun NAME ARGLIST "…" FORM …)` the string right after the arglist is
/// tagged `Docstring` when at least one more form follows it (the `Leading`
/// policy); a lone trailing string `(defun NAME ARGLIST "…")` is the
/// function's value and is tagged `Body`. Every item of the form is a part.
pub proof fn lemma_common_lisp_docstring<'a, 't>(a: Annotated<'a, 't>, reg: Map<Seq<char>, FormSpec>)
    requires
        forms_view(reg) == spec_bundled_registry(Dialect::CommonLisp),
        annotation_of(a, reg),
        a.head@ == "defun"@ || a.head@ == "defmacro"@,
        list_items(*a.form).len() >= 4,
        (list_items(*a.form)[3].kind is Str),
    ensures
        a.parts.len() == list_items(*a.form).len(),
        a.parts@[3].role == (if list_items(*a.form).len() > 4 {
            Role::Docstring
        } else {
            Role::Body
        }),
{
    reveal_strlit("defun");
    reveal_strlit("defmacro");
    reveal_strlit("defgeneric");
    reveal_strlit("defmethod");
    reveal_strlit("defvar");
    reveal_strlit("defparameter");
    reveal_strlit("defconstant");
    reveal_strlit("defclass");
    reveal_strlit("define-condition");
    reveal_strlit("defstruct");
    reveal_strlit("deftype");
    reveal_strlit("defpackage");
    assert("defun"@.len() == 5);
    assert("defmacro"@.len() == 8);
    assert("defgeneric"@.len() == 10);
    assert("defmethod"@.len() == 9);
    assert("defvar"@.len() == 6);
    assert("defparameter"@.len() == 12);
    assert("defconstant"@.len() == 11);
    assert("defclass"@.len() == 8);
    assert("define-condition"@.len() == 16);
    assert("defstruct"@.len() == 9);
    assert("deftype"@.len() == 7);
    assert("defpackage"@.len() == 10);
    let items = list_items(*a.form);
    let k = a.head@;
    assert(reg.contains_key(k));
    assert(forms_view(reg)[k] == form_view(reg[k]));
    assert(form_view(reg[k]) == spec_common_lisp_builtins()[k]);
    if k == "defun"@ {
        assert(spec_common_lisp_builtins()[k] == def_view(
            seq![Role::Name, Role::Arglist],
            Docstring::Leading,
            true,
            Some(Category::Function),
        ));
    } else {
        assert(k[3] == 'm' && "defclass"@[3] == 'c');
        assert(spec_common_lisp_builtins()[k] == def_view(
            seq![Role::Name, Role::Arglist],
            Docstring::Leading,
            true,
            Some(Category::Macro),
        ));
    }
    assert(reg[k].leading@ == seq![Role::Name, Role::Arglist]);
    let roles = a.parts@.map_values(|p: Part| p.role);
    lemma_name_arglist_roles(items, reg[k], Docstring::Leading, roles);
    assert(a.parts@[3].role == roles[3]);
}

/// Under the bundled Emacs Lisp registry, in a `defun` form
/// `(defun NAME ARGLIST "…" …)` the string right after the arglist is the
/// docstring, even when nothing follows it: an Emacs Lisp function's lone
/// body string is its documentation. Every item of the form is a part.
pub proof fn lemma_emacs_lisp_docstring<'a, 't>(a: Annotated<'a, 't>, reg: Map<Seq<char>, FormSpec>)
    requires
        forms_view(reg) == spec_bundled_registry(Dialect::EmacsLisp),
        annotation_of(a, reg),
        a.head@ == "defun"@,
        list_items(*a.form).len() >= 4,
        (list_items(*a.form)[3].kind is Str),
    ensures
        a.parts.len() == list_items(*a.form).len(),
        a.parts@[3].role == Role::Docstring,
{
    reveal_strlit("defun");
    reveal_strlit("defsubst");
    reveal_strlit("cl-defun");
    reveal_strlit("cl-defsubst");
    reveal_strlit("define-inline");
    reveal_strlit("defmacro");
    reveal_strlit("cl-defmacro");
    reveal_strlit("cl-defgeneric");
    reveal_strlit("cl-defmethod");
    reveal_strlit("defvar");
    reveal_strlit("defvar-local");
    reveal_strlit("defconst");
    reveal_strlit("defcustom");
    reveal_strlit("defface");
    reveal_strlit("defgroup");
    reveal_strlit("defvar-keymap");
    reveal_strlit("define-minor-mode");
    reveal_strlit("define-derived-mode");
    reveal_strlit("define-global-minor-mode");
    reveal_strlit("cl-defstruct");
    reveal_strlit("ert-deftest");
    assert("defun"@.len() == 5);
    assert("defsubst"@.len() == 8);
    assert("cl-defun"@.len() == 8);
    assert("cl-defsubst"@.len() == 11);
    assert("define-inline"@.len() == 13);
    assert("defmacro"@.len() == 8);
    assert("cl-defmacro"@.len() == 11);
    assert("cl-defgeneric"@.len() == 13);
    assert("cl-defmethod"@.len() == 12);
    assert("defvar"@.len() == 6);
    assert("defvar-local"@.len() == 12);
    assert("defconst"@.len() == 8);
    assert("defcustom"@.len() == 9);
    assert("defface"@.len() == 7);
    assert("defgroup"@.len() == 8);
    assert("defvar-keymap"@.len() == 13);
    assert("define-minor-mode"@.len() == 17);
    assert("define-derived-mode"@.len() == 19);
    assert("define-global-minor-mode"@.len() == 24);
    assert("cl-defstruct"@.len() == 12);
    assert("ert-deftest"@.len() == 11);
    let items = list_items(*a.form);
    let k = a.head@;
    assert(reg.contains_key(k));
    assert(forms_view(reg)[k] == form_view(reg[k]));
    assert(form_view(reg[k]) == spec_emacs_lisp_builtins()[k]);
    assert(spec_emacs_lisp_builtins()[k] == def_view(
        seq![Role::Name, Role::Arglist],
        Docstring::LeadingOrLone,
        true,
        Some(Category::Function),
    ));
    assert(reg[k].leading@ == seq![Role::Name, Role::Arglist]);
    let roles = a.parts@.map_values(|p: Part| p.role);
    lemma_name_arglist_roles(items, reg[k], Docstring::LeadingOrLone, roles);
    assert(a.parts@[3].role == roles[3]);
}

/// The roles a `(HEAD NAME x …)` form of at least three items takes under a
/// definition spec with leading `NAME`, a body, no dispatch and docstring
/// policy `doc`: one role per item, and `x` a docstring exactly where the
/// policy accepts it there.
proof fn lemma_name_roles(items: Seq<Datum>, spec: FormSpec, doc: Docstring, roles: Seq<Role>)
    requires
        spec.leading@ == seq![Role::Name],
        spec.docstring == doc,
        spec.body,
        spec.dispatch == None::<Dispatch>,
        items.len() >= 3,
        spec_roles(items, spec) == Some(roles),
    ensures
        roles.len() == items.len(),
        roles[2] == (if doc_accepted(items, doc, 2) {
            Role::Docstring
        } else {
            body_role(items[2])
        }),
{
    assert(leading_count(spec, items.len() as int) == 1);
    assert(spec.leading@.take(1) =~= seq![Role::Name]);
    let acc = doc_accepted(items, doc, 2);
    let i2: int = if acc {
        3
    } else {
        2
    };
    let r3 = items.skip(i2).map_values(|d: Datum| body_role(d));
    let r2: Seq<Role> = if acc {
        seq![Role::Docstring]
    } else {
        Seq::empty()
    };
    let r0 = seq![Role::Keyword] + seq![Role::Name];
    assert(roles =~= r0 + Seq::<Role>::empty() + r2 + r3);
    if !acc {
        assert(r3[0] == body_role(items[2]));
    }
}

/// Under the bundled Clojure registry, in a `defn` form
/// `(defn NAME "…" [ARGS] …)` the docstring precedes the arglist: a string
/// right after the name that is followed by more forms is tagged
/// `Docstring`. Every item of the form is a part.
pub proof fn lemma_clojure_docstring<'a, 't>(a: Annotated<'a, 't>, reg: Map<Seq<char>, FormSpec>)
    requires
        forms_view(reg) == spec_bundled_registry(Dialect::Clojure),
        annotation_of(a, reg),
        a.head@ == "defn"@,
        list_items(*a.form).len() >= 4,
        (list_items(*a.form)[2].kind is Str),
    ensures
        a.parts.len() == list_items(*a.form).len(),
        a.parts@[2].role == Role::Docstring,
{
    reveal_strlit("defn");
    reveal_strlit("defn-");
    reveal_strlit("defmacro");
    reveal_strlit("def");
    reveal_strlit("defonce");
    reveal_strlit("defmulti");
    reveal_strlit("defmethod");
    reveal_strlit("defprotocol");
    reveal_strlit("definterface");
    reveal_strlit("defrecord");
    reveal_strlit("deftype");
    reveal_strlit("deftest");
    reveal_strlit("ns");
    assert("defn"@.len() == 4);
    assert("defn-"@.len() == 5);
    assert("defmacro"@.len() == 8);
    assert("def"@.len() == 3);
    assert("defonce"@.len() == 7);
    assert("defmulti"@.len() == 8);
    assert("defmethod"@.len() == 9);
    assert("defprotocol"@.len() == 11);
    assert("definterface"@.len() == 12);
    assert("defrecord"@.len() == 9);
    assert("deftype"@.len() == 7);
    assert("deftest"@.len() == 7);
    assert("ns"@.len() == 2);
    let items = list_items(*a.form);
    let k = a.head@;
    assert(reg.contains_key(k));
    assert(forms_view(reg)[k] == form_view(reg[k]));
    assert(form_view(reg[k]) == spec_clojure_builtins()[k]);
    assert(spec_clojure_builtins()[k] == def_view(
        seq![Role::Name],
        Docstring::Leading,
        true,
        Some(Category::Function),
    ));
    assert(reg[k].leading@ == seq![Role::Name]);
    let roles = a.parts@.map_values(|p: Part| p.role);
    lemma_name_roles(items, reg[k], Docstring::Leading, roles);
    assert(a.parts@[2].role == roles[2]);
}

/// The standard GNU Emacs definition forms. An elisp lone body string is a
/// docstring, hence `LeadingOrLone`; variable forms give the value a fixed
/// `Other` slot so a trailing docstring is found after it.
fn emacs_lisp_builtins() -> (r: Registry)
    ensures
        r.wf(),
        all_builtin(r@),
        keyed_by_head(r@),
        exists|k: Seq<char>| r@.contains_key(k),
        forms_view(r@) == spec_emacs_lisp_builtins(),
{
    let mut b = Builtins::new();
    b.def("defun", name_arglist(), Docstring::LeadingOrLone, true, Some(Category::Function));
    b.def("defsubst", name_arglist(), Docstring::LeadingOrLone, true, Some(Category::Function));
    b.def("cl-defun", name_arglist(), Docstring::LeadingOrLone, true, Some(Category::Function));
    b.def("cl-defsubst", name_arglist(), Docstring::LeadingOrLone, true, Some(Category::Function));
    b.def("define-inline", name_arglist(), Docstring::LeadingOrLone, true, Some(Category::Function));
    b.def("defmacro", name_arglist(), Docstring::LeadingOrLone, true, Some(Category::Macro));
    b.def("cl-defmacro", name_arglist(), Docstring::LeadingOrLone, true, Some(Category::Macro));
    b.def("cl-defgeneric", name_arglist(), Docstring::LeadingOrLone, true, Some(Category::Generic));
    b.method("cl-defmethod", Dispatch::Qualifiers, Docstring::LeadingOrLone, Category::Method);
    b.def("defvar", name_other(), Docstring::LeadingOrLone, false, Some(Category::Variable));
    b.def("defvar-local", name_other(), Docstring::LeadingOrLone, false, Some(Category::Variable));
    b.def("defconst", name_other(), Docstring::LeadingOrLone, false, Some(Category::Constant));
    b.def("defcustom", name_other(), Docstring::LeadingOrLone, true, Some(Category::Variable));
    b.def("defface", name_other(), Docstring::LeadingOrLone, true, Some(Category::Variable));
    b.def("defgroup", name_other(), Docstring::LeadingOrLone, true, None);
    b.def("defvar-keymap", name_only(), Docstring::Absent, true, Some(Category::Variable));
    b.def("define-minor-mode", name_only(), Docstring::LeadingOrLone, true, None);
    b.def("define-derived-mode", name_other_other(), Docstring::LeadingOrLone, true, None);
    b.def("define-global-minor-mode", name_only(), Docstring::LeadingOrLone, true, None);
    b.def("cl-defstruct", name_only(), Docstring::LeadingOrLone, true, Some(Category::Struct));
    b.def("ert-deftest", name_arglist(), Docstring::LeadingOrLone, true, Some(Category::Test));
    let r = b.reg;
    proof {
        r.lemma_keyed_by_head();
    }
    r
}

/// Scheme's core definition forms (strict R7RS-small). Scheme has no
/// docstrings; `define` is ambiguous (value vs. procedure), so it has no
/// category.
fn scheme_builtins() -> (r: Registry)
    ensures
        r.wf(),
        all_builtin(r@),
        keyed_by_head(r@),
        exists|k: Seq<char>| r@.contains_key(k),
        forms_view(r@) == spec_scheme_builtins(),
{
    let mut b = Builtins::new();
    b.def("define", name_only(), Docstring::Absent, true, None);
    b.def("define-values", name_only(), Docstring::Absent, true, None);
    b.def("define-syntax", name_only(), Docstring::Absent, true, Some(Category::Macro));
    b.def("define-record-type", name_only(), Docstring::Absent, true, Some(Category::Type));
    b.def("define-library", name_only(), Docstring::Absent, true, None);
    let r = b.reg;
    proof {
        r.lemma_keyed_by_head();
    }
    r
}

/// The uncontested definition forms shared by Guile GOOPS, Gauche and common
/// `.scm` code, beyond the R7RS core.
fn scheme_extended_extra() -> (r: Registry)
    ensures
        r.wf(),
        all_builtin(r@),
        keyed_by_head(r@),
        exists|k: Seq<char>| r@.contains_key(k),
        forms_view(r@) == spec_scheme_extended_extra(),
{
    let mut b = Builtins::new();
    b.def("define-class", name_only(), Docstring::Absent, true, Some(Category::Class));
    b.def("define-generic", name_only(), Docstring::Absent, false, Some(Category::Generic));
    b.def("define-constant", name_other(), Docstring::Absent, false, Some(Category::Constant));
    b.def("define-inline", name_only(), Docstring::Absent, true, None);
    b.def("define-syntax-rule", name_only(), Docstring::Absent, true, Some(Category::Macro));
    b.def("define*", name_only(), Docstring::Absent, true, None);
    b.def("define-public", name_only(), Docstring::Absent, true, None);
    let r = b.reg;
    proof {
        r.lemma_keyed_by_head();
    }
    r
}

/// Racket's additions to the Scheme core: `struct` and `define-syntax-rule`.
fn racket_extra() -> (r: Registry)
    ensures
        r.wf(),
        all_builtin(r@),
        keyed_by_head(r@),
        exists|k: Seq<char>| r@.contains_key(k),
        forms_view(r@) == spec_racket_extra(),
{
    let mut b = Builtins::new();
    b.def("struct", name_only(), Docstring::Absent, true, Some(Category::Struct));
    b.def("define-syntax-rule", name_only(), Docstring::Absent, true, Some(Category::Macro));
    let r = b.reg;
    proof {
        r.lemma_keyed_by_head();
    }
    r
}

/// Common Lisp's core definition forms (ANSI). A lone trailing string is a
/// value, not documentation, hence `Leading`; `defclass`, `defgeneric` and
/// `define-condition` document via a `(:documentation …)` option.
fn common_lisp_builtins() -> (r: Registry)
    ensures
        r.wf(),
        all_builtin(r@),
        keyed_by_head(r@),
        exists|k: Seq<char>| r@.contains_key(k),
        forms_view(r@) == spec_common_lisp_builtins(),
{
    let mut b = Builtins::new();
    b.def("defun", name_arglist(), Docstring::Leading, true, Some(Category::Function));
    b.def("defmacro", name_arglist(), Docstring::Leading, true, Some(Category::Macro));
    b.def("defgeneric", name_arglist(), Docstring::Absent, true, Some(Category::Generic));
    b.method("defmethod", Dispatch::Qualifiers, Docstring::Leading, Category::Method);
    b.def("defvar", name_other(), Docstring::LeadingOrLone, false, Some(Category::Variable));
    b.def("defparameter", name_other(), Docstring::LeadingOrLone, false, Some(Category::Variable));
    b.def("defconstant", name_other(), Docstring::LeadingOrLone, false, Some(Category::Constant));
    b.def("defclass", name_only(), Docstring::Absent, true, Some(Category::Class));
    b.def("define-condition", name_only(), Docstring::Absent, true, Some(Category::Class));
    b.def("defstruct", name_only(), Docstring::Leading, true, Some(Category::Struct));
    b.def("deftype", name_arglist(), Docstring::Leading, true, Some(Category::Type));
    b.def("defpackage", name_only(), Docstring::Absent, true, None);
    let r = b.reg;
    proof {
        r.lemma_keyed_by_head();
    }
    r
}

/// Clojure's core definition forms (also used for Phel). A docstring precedes
/// the arglist and is always followed by it, so `Leading` works; leading is
/// the name only.
fn clojure_builtins() -> (r: Registry)
    ensures
        r.wf(),
        all_builtin(r@),
        keyed_by_head(r@),
        exists|k: Seq<char>| r@.contains_key(k),
        forms_view(r@) == spec_clojure_builtins(),
{
    let mut b = Builtins::new();
    b.def("defn", name_only(), Docstring::Leading, true, Some(Category::Function));
    b.def("defn-", name_only(), Docstring::Leading, true, Some(Category::Function));
    b.def("defmacro", name_only(), Docstring::Leading, true, Some(Category::Macro));
    b.def("def", name_only(), Docstring::Leading, true, None);
    b.def("defonce", name_only(), Docstring::Absent, true, None);
    b.def("defmulti", name_only(), Docstring::Leading, true, Some(Category::Generic));
    b.method("defmethod", Dispatch::Value, Docstring::Absent, Category::Method);
    b.def("defprotocol", name_only(), Docstring::Leading, true, Some(Category::Generic));
    b.def("definterface", name_only(), Docstring::Absent, true, Some(Category::Type));
    b.def("defrecord", name_only(), Docstring::Absent, true, Some(Category::Struct));
    b.def("deftype", name_only(), Docstring::Absent, true, None);
    b.def("deftest", name_only(), Docstring::Absent, true, Some(Category::Test));
    b.def("ns", name_only(), Docstring::Leading, true, None);
    let r = b.reg;
    proof {
        r.lemma_keyed_by_head();
    }
    r
}

/// Fennel's core definition forms. `fn`/`lambda` may be anonymous, which the
/// annotator's name shape guard rejects, so only the named form annotates.
fn fennel_builtins() -> (r: Registry)
    ensures
        r.wf(),
        all_builtin(r@),
        keyed_by_head(r@),
        exists|k: Seq<char>| r@.contains_key(k),
        forms_view(r@) == spec_fennel_builtins(),
{
    let mut b = Builtins::new();
    b.def("fn", name_arglist(), Docstring::Leading, true, Some(Category::Function));
    b.def("lambda", name_arglist(), Docstring::Leading, true, Some(Category::Function));
    b.def("λ", name_arglist(), Docstring::Leading, true, Some(Category::Function));
    b.def("macro", name_arglist(), Docstring::Leading, true, Some(Category::Macro));
    b.def("macros", name_only(), Docstring::Absent, true, Some(Category::Macro));
    b.def("local", name_only(), Docstring::Absent, true, Some(Category::Variable));
    b.def("var", name_only(), Docstring::Absent, true, Some(Category::Variable));
    b.def("global", name_only(), Docstring::Absent, true, Some(Category::Variable));
    let r = b.reg;
    proof {
        r.lemma_keyed_by_head();
    }
    r
}

/// Janet's core definition forms. The docstring precedes the arglist or
/// value; leading is the name only.
fn janet_builtins() -> (r: Registry)
    ensures
        r.wf(),
        all_builtin(r@),
        keyed_by_head(r@),
        exists|k: Seq<char>| r@.contains_key(k),
        forms_view(r@) == spec_janet_builtins(),
{
    let mut b = Builtins::new();
    b.def("defn", name_only(), Docstring::Leading, true, Some(Category::Function));
    b.def("defn-", name_only(), Docstring::Leading, true, Some(Category::Function));
    b.def("defmacro", name_only(), Docstring::Leading, true, Some(Category::Macro));
    b.def("defmacro-", name_only(), Docstring::Leading, true, Some(Category::Macro));
    b.def("def", name_only(), Docstring::Leading, true, None);
    b.def("def-", name_only(), Docstring::Leading, true, None);
    b.def("var", name_only(), Docstring::Leading, true, Some(Category::Variable));
    b.def("var-", name_only(), Docstring::Leading, true, Some(Category::Variable));
    let r = b.reg;
    proof {
        r.lemma_keyed_by_head();
    }
    r
}

/// Hy's core definition forms. Like Python, a lone body string is the
/// docstring.
fn hy_builtins() -> (r: Registry)
    ensures
        r.wf(),
        all_builtin(r@),
        keyed_by_head(r@),
        exists|k: Seq<char>| r@.contains_key(k),
        forms_view(r@) == spec_hy_builtins(),
{
    let mut b = Builtins::new();
    b.def("defn", name_arglist(), Docstring::LeadingOrLone, true, Some(Category::Function));
    b.def("defmacro", name_arglist(), Docstring::LeadingOrLone, true, Some(Category::Macro));
    b.def("defclass", name_only(), Docstring::LeadingOrLone, true, Some(Category::Class));
    b.def("setv", name_only(), Docstring::Absent, true, None);
    let r = b.reg;
    proof {
        r.lemma_keyed_by_head();
    }
    r
}

/// LFE's core definition forms.
fn lfe_builtins() -> (r: Registry)
    ensures
        r.wf(),
        all_builtin(r@),
        keyed_by_head(r@),
        exists|k: Seq<char>| r@.contains_key(k),
        forms_view(r@) == spec_lfe_builtins(),
{
    let mut b = Builtins::new();
    b.def("defun", name_arglist(), Docstring::Leading, true, Some(Category::Function));
    b.def("defmacro", name_arglist(), Docstring::Leading, true, Some(Category::Macro));
    b.def("defrecord", name_only(), Docstring::Absent, true, Some(Category::Struct));
    b.def("defmodule", name_only(), Docstring::Absent, true, None);
    let r = b.reg;
    proof {
        r.lemma_keyed_by_head();
    }
    r
}

/// ISLisp's core definition forms. ISLisp has no docstrings.
fn islisp_builtins() -> (r: Registry)
    ensures
        r.wf(),
        all_builtin(r@),
        keyed_by_head(r@),
        exists|k: Seq<char>| r@.contains_key(k),
        forms_view(r@) == spec_islisp_builtins(),
{
    let mut b = Builtins::new();
    b.def("defun", name_arglist(), Docstring::Absent, true, Some(Category::Function));
    b.def("defmacro", name_arglist(), Docstring::Absent, true, Some(Category::Macro));
    b.def("defgeneric", name_arglist(), Docstring::Absent, true, Some(Category::Generic));
    b.method("defmethod", Dispatch::Qualifiers, Docstring::Absent, Category::Method);
    b.def("defclass", name_only(), Docstring::Absent, true, Some(Category::Class));
    b.def("defconstant", name_only(), Docstring::Absent, true, Some(Category::Constant));
    b.def("defglobal", name_only(), Docstring::Absent, true, Some(Category::Variable));
    b.def("defdynamic", name_only(), Docstring::Absent, true, Some(Category::Variable));
    let r = b.reg;
    proof {
        r.lemma_keyed_by_head();
    }
    r
}

/// AutoLISP's core definition forms.
fn autolisp_builtins() -> (r: Registry)
    ensures
        r.wf(),
        all_builtin(r@),
        keyed_by_head(r@),
        exists|k: Seq<char>| r@.contains_key(k),
        forms_view(r@) == spec_autolisp_builtins(),
{
    let mut b = Builtins::new();
    b.def("defun", name_arglist(), Docstring::Absent, true, Some(Category::Function));
    let r = b.reg;
    proof {
        r.lemma_keyed_by_head();
    }
    r
}

} // verus!
