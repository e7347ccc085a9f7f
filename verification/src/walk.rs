//! Code-vs-data walker.
//!
//! A best-effort pruning visitor over a [`Datum`] tree that classifies each
//! node as [`Class::Code`] or [`Class::Data`] and lets a consumer prune whole
//! subtrees. It interprets structure already present and evaluates nothing.
//!
//! Not all data can be pruned without losing code: a hard `quote`, a hash
//! literal or discarded content is sealed ([`Region::SealedData`]); a
//! quasiquote template is porous ([`Region::PorousData`]): a matching nested
//! `unquote` flips its contents back to code. Prune with [`walk_regions`] and
//! [`Region::is_prunable`], or with [`walk`] only skip nodes handled
//! yourself.
//!
//! Classification is driven by reader-macro nesting:
//! - `Quote` opens an absolute data region: everything inside is data and
//!   unquote cannot escape it.
//! - `Quasiquote` deepens a quasiquote depth (`+1`); `Unquote` and
//!   `UnquoteSplicing` step back toward code (`-1`, clamped at 0). A node is
//!   code iff the depth is 0 and it is not under a hard quote.
//! - `VarQuote`, `FunctionQuote`, `Deref`, `Splice`, `HashFn`, `Meta`,
//!   `Mutable`, feature and reader conditionals, and labels are
//!   context-transparent.
//! - `ReadEval` marks its contents as code unconditionally.
//! - Hash literals, label references and discarded content are data; a
//!   prefix's auxiliary datum (metadata form, feature test) is data.

#![verifier::loop_isolation(false)]

use vstd::prelude::*;

use crate::datum::{Datum, DatumKind, Prefix};

verus! {

/// Whether a subtree is executable code or inert data.
///
/// This is the binary view: enough to classify a node, not to decide whether
/// skipping it is safe (see [`Region`]).
#[derive(Debug, Clone, Copy, PartialEq, Eq, Hash)]
pub enum Class {
    /// Can be evaluated — descend into it for code analysis.
    Code,
    /// Inert data — a search prunes it.
    Data,
}

/// A refinement of [`Class`] that splits data by whether it is safe to
/// prune.
#[derive(Debug, Clone, Copy, PartialEq, Eq, Hash)]
#[non_exhaustive]
pub enum Region {
    /// Can be evaluated — descend into it for code analysis.
    Code,
    /// Data that can never contain code (hard `quote`, hash literal,
    /// discard). Safe to prune with [`Walk::Skip`].
    SealedData,
    /// A quasiquote template: data at this depth, but a nested `unquote` can
    /// flip its contents back to code. Must be descended into, not pruned.
    PorousData,
}

impl Region {
    /// The binary class of a region: everything but code is data.
    pub open spec fn spec_class(self) -> Class {
        match self {
            Region::Code => Class::Code,
            _ => Class::Data,
        }
    }

    /// The binary [`Class`] for this region: everything but [`Region::Code`]
    /// is [`Class::Data`].
    pub fn class(self) -> (c: Class)
        ensures
            c == self.spec_class(),
    {
        match self {
            Region::Code => Class::Code,
            Region::SealedData => Class::Data,
            Region::PorousData => Class::Data,
        }
    }

    /// Whether returning [`Walk::Skip`] on this node is a safe optimization —
    /// `true` only for [`Region::SealedData`].
    pub fn is_prunable(self) -> (b: bool)
        ensures
            b == (self is SealedData),
    {
        match self {
            Region::SealedData => true,
            _ => false,
        }
    }
}

/// What the visitor callback asks the walker to do next.
#[derive(Debug, Clone, Copy, PartialEq, Eq, Hash)]
#[non_exhaustive]
pub enum Walk {
    /// Recurse into this datum's children.
    Descend,
    /// Do not recurse into this datum's children.
    Skip,
    /// Abort the whole walk immediately.
    Stop,
}

/// The classification context a datum sits in: an absolute quote barrier
/// and a quasiquote depth.
#[derive(Debug, Clone, Copy)]
pub struct Ctx {
    /// Under a hard `quote`: everything inside is sealed data.
    pub hard_quote: bool,
    /// The quasiquote depth.
    pub qq: u32,
}

/// The context of top-level data and code regions.
pub open spec fn top_ctx() -> Ctx {
    Ctx { hard_quote: false, qq: 0 }
}

/// An absolute data region.
pub open spec fn data_ctx() -> Ctx {
    Ctx { hard_quote: true, qq: 0 }
}

impl Ctx {
    fn top() -> (c: Ctx)
        ensures
            c == top_ctx(),
    {
        Ctx { hard_quote: false, qq: 0 }
    }

    fn data() -> (c: Ctx)
        ensures
            c == data_ctx(),
    {
        Ctx { hard_quote: true, qq: 0 }
    }

    /// A hard quote seals; a positive quasiquote depth is porous; otherwise
    /// code.
    pub open spec fn spec_region(self) -> Region {
        if self.hard_quote {
            Region::SealedData
        } else if self.qq > 0 {
            Region::PorousData
        } else {
            Region::Code
        }
    }

    fn region(self) -> (r: Region)
        ensures
            r == self.spec_region(),
    {
        if self.hard_quote {
            Region::SealedData
        } else if self.qq > 0 {
            Region::PorousData
        } else {
            Region::Code
        }
    }
}

/// The context a prefix's inner datum sits in, given the prefix's own.
pub open spec fn spec_inner_ctx(prefix: Prefix, ctx: Ctx) -> Ctx {
    match prefix {
        Prefix::Quote => data_ctx(),
        Prefix::Quasiquote => Ctx {
            qq: if ctx.qq < u32::MAX {
                (ctx.qq + 1) as u32
            } else {
                ctx.qq
            },
            ..ctx
        },
        Prefix::Unquote | Prefix::UnquoteSplicing => Ctx {
            qq: if ctx.qq > 0 {
                (ctx.qq - 1) as u32
            } else {
                0
            },
            ..ctx
        },
        Prefix::ReadEval => top_ctx(),
        Prefix::Discard => data_ctx(),
        _ => ctx,
    }
}

fn inner_ctx(prefix: Prefix, ctx: Ctx) -> (c: Ctx)
    ensures
        c == spec_inner_ctx(prefix, ctx),
{
    match prefix {
        // Quote is an absolute, deep data barrier that unquote cannot escape.
        Prefix::Quote => Ctx::data(),
        // Quasiquote deepens the data region; unquotes step back toward code.
        Prefix::Quasiquote => Ctx { qq: ctx.qq.saturating_add(1), ..ctx },
        Prefix::Unquote | Prefix::UnquoteSplicing => Ctx { qq: ctx.qq.saturating_sub(1), ..ctx },
        // `#.` is evaluated at read time — code even inside `quote`.
        Prefix::ReadEval => Ctx::top(),
        // Discarded content is inert.
        Prefix::Discard => Ctx::data(),
        // Code references and wrappers are context-transparent.
        _ => ctx,
    }
}

/// The region a datum occupies: hash literals and label references are
/// sealed data wherever they stand.
pub open spec fn spec_node_region(datum: Datum, ctx: Ctx) -> Region {
    match datum.kind {
        DatumKind::HashLiteral { .. } | DatumKind::LabelRef { .. } => Region::SealedData,
        _ => ctx.spec_region(),
    }
}

fn node_region(datum: &Datum, ctx: Ctx) -> (r: Region)
    ensures
        r == spec_node_region(*datum, ctx),
{
    match &datum.kind {
        DatumKind::HashLiteral { .. } | DatumKind::LabelRef { .. } => Region::SealedData,
        _ => ctx.region(),
    }
}

/// The code nodes of `d` in context `ctx`, in pre-order: sealed data is
/// pruned whole; porous templates are descended without being yielded.
pub open spec fn code_seq<'t>(d: Datum<'t>, ctx: Ctx) -> Seq<Datum<'t>>
    decreases d, 1nat,
{
    let r = spec_node_region(d, ctx);
    if r is SealedData {
        Seq::empty()
    } else {
        let head = if r is Code {
            seq![d]
        } else {
            Seq::empty()
        };
        head + match d.kind {
            DatumKind::List { items, tail, .. } => items_code(items@, ctx) + match tail {
                Some(t) => code_seq(*t, ctx),
                None => Seq::empty(),
            },
            DatumKind::Prefixed { prefix, inner, arg, .. } => {
                let before = match arg {
                    Some(a) => code_seq(*a, data_ctx()),
                    None => Seq::empty(),
                };
                before + code_seq(*inner, spec_inner_ctx(prefix, ctx))
            },
            DatumKind::HashLiteral { inner: Some(i), .. } => code_seq(*i, data_ctx()),
            DatumKind::Label { inner, .. } => code_seq(*inner, ctx),
            _ => Seq::empty(),
        }
    }
}

/// The code nodes of the items `s`, in order, each in context `ctx`.
pub open spec fn items_code<'t>(s: Seq<Datum<'t>>, ctx: Ctx) -> Seq<Datum<'t>>
    decreases s, 0nat,
{
    if s.len() == 0 {
        Seq::empty()
    } else {
        items_code(s.drop_last(), ctx) + code_seq(s.last(), ctx)
    }
}

/// The code nodes of a datum forest, in pre-order, top-level data starting
/// as code.
pub open spec fn forest_code<'t>(data: Seq<Datum<'t>>) -> Seq<Datum<'t>> {
    items_code(data, top_ctx())
}

/// The data the references of `s` point to.
pub open spec fn deref_seq<'a, 't>(s: Seq<&'a Datum<'t>>) -> Seq<Datum<'t>> {
    s.map_values(|x: &'a Datum<'t>| *x)
}

/// One call of a visitor during a walk: the datum visited, its region (a
/// class visitor is handed the region's class), and the visitor's answer.
pub type Visit<'a, 't> = (&'a Datum<'t>, Region, Walk);

/// `o` with `n` more visits counted.
pub open spec fn shifted(n: nat, o: Option<(nat, bool)>) -> Option<(nat, bool)> {
    match o {
        Some((m, stopped)) => Some((n + m, stopped)),
        None => None,
    }
}

/// Read the walk of `d` in context `ctx` off the front of the visit trace
/// `t`, with a visitor whose possible answers are `ans`: `d` is visited
/// first with its region and an answer the visitor can give; on `Descend`
/// its children follow in order, on `Skip` they are pruned, and `Stop` ends
/// the walk. The number of visits the walk of `d` makes and whether it
/// stopped, or `None` when `t` does not start with such a walk.
pub open spec fn walk_from<'a, 't>(
    ans: spec_fn(&'a Datum<'t>, Region, Walk) -> bool,
    d: &'a Datum<'t>,
    ctx: Ctx,
    t: Seq<Visit<'a, 't>>,
) -> Option<(nat, bool)>
    decreases *d, 2nat, 0int,
{
    if t.len() == 0 {
        None
    } else {
        let r = spec_node_region(*d, ctx);
        let v = t[0];
        if v.0 != d || v.1 != r || !ans(d, r, v.2) {
            None
        } else {
            match v.2 {
                Walk::Skip => Some((1nat, false)),
                Walk::Stop => Some((1nat, true)),
                Walk::Descend => shifted(1, children_from(ans, d, ctx, t.skip(1))),
            }
        }
    }
}

/// The walks of `d`'s children off the front of `t`, in order, each in the
/// context it inherits from `ctx`: list items then the tail; a prefix's
/// auxiliary datum (as sealed data) then its inner datum; a hash literal's
/// content (as sealed data); a label's datum. A child's `Stop` ends them.
pub open spec fn children_from<'a, 't>(
    ans: spec_fn(&'a Datum<'t>, Region, Walk) -> bool,
    d: &'a Datum<'t>,
    ctx: Ctx,
    t: Seq<Visit<'a, 't>>,
) -> Option<(nat, bool)>
    decreases *d, 1nat, 0int,
{
    match d.kind {
        DatumKind::List { .. } => items_from(ans, d, ctx, 0, t),
        DatumKind::Prefixed { prefix, inner, arg, .. } => {
            let ictx = spec_inner_ctx(prefix, ctx);
            match arg {
                Some(a) => match walk_from(ans, &*a, data_ctx(), t) {
                    Some((n, false)) => shifted(n, walk_from(ans, &*inner, ictx, t.skip(n as int))),
                    other => other,
                },
                None => walk_from(ans, &*inner, ictx, t),
            }
        },
        DatumKind::HashLiteral { inner: Some(i), .. } => walk_from(ans, &*i, data_ctx(), t),
        DatumKind::Label { inner, .. } => walk_from(ans, &*inner, ctx, t),
        _ => Some((0nat, false)),
    }
}

/// The number of items of a list datum (0 for any other datum).
pub open spec fn item_count(d: Datum) -> int {
    match d.kind {
        DatumKind::List { items, .. } => items.len() as int,
        _ => 0,
    }
}

/// The walks of the list `d`'s items from index `i` on, then of its tail,
/// off the front of `t`; an item's `Stop` ends them.
pub open spec fn items_from<'a, 't>(
    ans: spec_fn(&'a Datum<'t>, Region, Walk) -> bool,
    d: &'a Datum<'t>,
    ctx: Ctx,
    i: int,
    t: Seq<Visit<'a, 't>>,
) -> Option<(nat, bool)>
    decreases *d, 0nat, item_count(*d) - i,
{
    match d.kind {
        DatumKind::List { items, tail, .. } => if 0 <= i < items.len() {
            proof {
                assert(decreases_to!(*d => items@[i]));
            }
            match walk_from(ans, &items@[i], ctx, t) {
                Some((n, false)) => shifted(n, items_from(ans, d, ctx, i + 1, t.skip(n as int))),
                other => other,
            }
        } else {
            match tail {
                Some(tl) => walk_from(ans, &*tl, ctx, t),
                None => Some((0nat, false)),
            }
        },
        _ => Some((0nat, false)),
    }
}

/// The walks of the top-level data `data` from index `i` on, each from
/// code, off the front of `t`; a datum's `Stop` ends them.
pub open spec fn forest_from<'a, 't>(
    ans: spec_fn(&'a Datum<'t>, Region, Walk) -> bool,
    data: &'a [Datum<'t>],
    i: int,
    t: Seq<Visit<'a, 't>>,
) -> Option<(nat, bool)>
    decreases data@.len() - i,
{
    if 0 <= i < data@.len() {
        match walk_from(ans, &data@[i], top_ctx(), t) {
            Some((n, false)) => shifted(n, forest_from(ans, data, i + 1, t.skip(n as int))),
            other => other,
        }
    } else {
        Some((0nat, false))
    }
}

/// `visits` is exactly the walk of `data` with a visitor whose possible
/// answers are `ans`.
pub open spec fn is_walk_of<'a, 't>(
    ans: spec_fn(&'a Datum<'t>, Region, Walk) -> bool,
    data: &'a [Datum<'t>],
    visits: Seq<Visit<'a, 't>>,
) -> bool {
    forest_from(ans, data, 0, visits) matches Some((n, _)) && n == visits.len()
}

/// A visitor whose possible answers `ans` are one answer per datum and
/// region.
pub open spec fn answers_determined<'a, 't>(ans: spec_fn(&'a Datum<'t>, Region, Walk) -> bool) -> bool {
    forall|d: &'a Datum<'t>, r: Region, w1: Walk, w2: Walk|
        #[trigger] ans(d, r, w1) && #[trigger] ans(d, r, w2) ==> w1 == w2
}

/// Two walks read off `t1` and `t2` that agree: the same count and outcome,
/// and the same visits up to the count.
pub open spec fn same_walk<'a, 't>(
    o1: Option<(nat, bool)>,
    o2: Option<(nat, bool)>,
    t1: Seq<Visit<'a, 't>>,
    t2: Seq<Visit<'a, 't>>,
) -> bool {
    match (o1, o2) {
        (Some((n1, b1)), Some((n2, b2))) => {
            &&& n1 == n2
            &&& b1 == b2
            &&& n1 <= t1.len()
            &&& n2 <= t2.len()
            &&& t1.take(n1 as int) == t2.take(n2 as int)
        },
        _ => true,
    }
}

/// Two sequences that agree on `n` visits and then on `m` more agree on
/// `n + m`.
proof fn lemma_take_join<'a, 't>(t1: Seq<Visit<'a, 't>>, t2: Seq<Visit<'a, 't>>, n: int, m: int)
    requires
        0 <= n,
        0 <= m,
        n + m <= t1.len(),
        n + m <= t2.len(),
        t1.take(n) == t2.take(n),
        t1.skip(n).take(m) == t2.skip(n).take(m),
    ensures
        t1.take(n + m) == t2.take(n + m),
{
    assert forall|k: int| 0 <= k < n + m implies #[trigger] t1.take(n + m)[k] == t2.take(n + m)[k] by {
        if k < n {
            assert(t1.take(n)[k] == t2.take(n)[k]);
        } else {
            assert(t1.skip(n).take(m)[k - n] == t2.skip(n).take(m)[k - n]);
        }
    }
    assert(t1.take(n + m) =~= t2.take(n + m));
}

/// One walk followed by another read off the rest agree when both parts do.
proof fn lemma_then<'a, 't>(
    first1: Option<(nat, bool)>,
    first2: Option<(nat, bool)>,
    rest1: Option<(nat, bool)>,
    rest2: Option<(nat, bool)>,
    t1: Seq<Visit<'a, 't>>,
    t2: Seq<Visit<'a, 't>>,
)
    requires
        same_walk(first1, first2, t1, t2),
        first1 matches Some((n, false)) ==> same_walk(rest1, rest2, t1.skip(n as int), t2.skip(n as int)),
    ensures
        same_walk(
            match first1 {
                Some((n, false)) => shifted(n, rest1),
                other => other,
            },
            match first2 {
                Some((n, false)) => shifted(n, rest2),
                other => other,
            },
            t1,
            t2,
        ),
{
    if let Some((n, false)) = first1 {
        if first2 is Some && rest1 is Some && rest2 is Some {
            let m = rest1.unwrap().0;
            lemma_take_join(t1, t2, n as int, m as int);
        }
    }
}

proof fn lemma_walk_same<'a, 't>(
    ans: spec_fn(&'a Datum<'t>, Region, Walk) -> bool,
    d: &'a Datum<'t>,
    ctx: Ctx,
    t1: Seq<Visit<'a, 't>>,
    t2: Seq<Visit<'a, 't>>,
)
    requires
        answers_determined(ans),
    ensures
        same_walk(walk_from(ans, d, ctx, t1), walk_from(ans, d, ctx, t2), t1, t2),
    decreases *d, 2nat, 0int,
{
    if t1.len() > 0 && t2.len() > 0 {
        let r = spec_node_region(*d, ctx);
        let v1 = t1[0];
        let v2 = t2[0];
        if v1.0 == d && v1.1 == r && ans(d, r, v1.2) && v2.0 == d && v2.1 == r && ans(d, r, v2.2) {
            assert(v1.2 == v2.2);
            assert(v1 == v2);
            assert(t1.take(1) =~= seq![v1]);
            assert(t2.take(1) =~= seq![v2]);
            if v1.2 is Descend {
                lemma_children_same(ans, d, ctx, t1.skip(1), t2.skip(1));
                let c1 = children_from(ans, d, ctx, t1.skip(1));
                let c2 = children_from(ans, d, ctx, t2.skip(1));
                if c1 is Some && c2 is Some {
                    let m = c1.unwrap().0;
                    lemma_take_join(t1, t2, 1, m as int);
                }
            }
        }
    }
}

proof fn lemma_children_same<'a, 't>(
    ans: spec_fn(&'a Datum<'t>, Region, Walk) -> bool,
    d: &'a Datum<'t>,
    ctx: Ctx,
    t1: Seq<Visit<'a, 't>>,
    t2: Seq<Visit<'a, 't>>,
)
    requires
        answers_determined(ans),
    ensures
        same_walk(children_from(ans, d, ctx, t1), children_from(ans, d, ctx, t2), t1, t2),
    decreases *d, 1nat, 0int,
{
    assert(t1.take(0) =~= t2.take(0));
    match d.kind {
        DatumKind::List { .. } => {
            lemma_items_same(ans, d, ctx, 0, t1, t2);
        },
        DatumKind::Prefixed { prefix, inner, arg, .. } => {
            let ictx = spec_inner_ctx(prefix, ctx);
            match arg {
                Some(a) => {
                    lemma_walk_same(ans, &*a, data_ctx(), t1, t2);
                    let f1 = walk_from(ans, &*a, data_ctx(), t1);
                    let f2 = walk_from(ans, &*a, data_ctx(), t2);
                    if let Some((n, false)) = f1 {
                        lemma_walk_same(ans, &*inner, ictx, t1.skip(n as int), t2.skip(n as int));
                    }
                    let n1 = if f1 is Some { f1.unwrap().0 } else { 0 };
                    let n2 = if f2 is Some { f2.unwrap().0 } else { n1 };
                    lemma_then(
                        f1,
                        f2,
                        walk_from(ans, &*inner, ictx, t1.skip(n1 as int)),
                        walk_from(ans, &*inner, ictx, t2.skip(n2 as int)),
                        t1,
                        t2,
                    );
                },
                None => {
                    lemma_walk_same(ans, &*inner, ictx, t1, t2);
                },
            }
        },
        DatumKind::HashLiteral { inner: Some(i), .. } => {
            lemma_walk_same(ans, &*i, data_ctx(), t1, t2);
        },
        DatumKind::Label { inner, .. } => {
            lemma_walk_same(ans, &*inner, ctx, t1, t2);
        },
        _ => {},
    }
}

proof fn lemma_items_same<'a, 't>(
    ans: spec_fn(&'a Datum<'t>, Region, Walk) -> bool,
    d: &'a Datum<'t>,
    ctx: Ctx,
    i: int,
    t1: Seq<Visit<'a, 't>>,
    t2: Seq<Visit<'a, 't>>,
)
    requires
        answers_determined(ans),
    ensures
        same_walk(items_from(ans, d, ctx, i, t1), items_from(ans, d, ctx, i, t2), t1, t2),
    decreases *d, 0nat, item_count(*d) - i,
{
    assert(t1.take(0) =~= t2.take(0));
    match d.kind {
        DatumKind::List { items, tail, .. } => {
            if 0 <= i < items.len() {
                assert(decreases_to!(*d => items@[i]));
                lemma_walk_same(ans, &items@[i], ctx, t1, t2);
                let f1 = walk_from(ans, &items@[i], ctx, t1);
                let f2 = walk_from(ans, &items@[i], ctx, t2);
                if let Some((n, false)) = f1 {
                    lemma_items_same(ans, d, ctx, i + 1, t1.skip(n as int), t2.skip(n as int));
                }
                let n1 = if f1 is Some { f1.unwrap().0 } else { 0 };
                let n2 = if f2 is Some { f2.unwrap().0 } else { n1 };
                lemma_then(
                    f1,
                    f2,
                    items_from(ans, d, ctx, i + 1, t1.skip(n1 as int)),
                    items_from(ans, d, ctx, i + 1, t2.skip(n2 as int)),
                    t1,
                    t2,
                );
            } else {
                match tail {
                    Some(tl) => lemma_walk_same(ans, &*tl, ctx, t1, t2),
                    None => {},
                }
            }
        },
        _ => {},
    }
}

proof fn lemma_forest_same<'a, 't>(
    ans: spec_fn(&'a Datum<'t>, Region, Walk) -> bool,
    data: &'a [Datum<'t>],
    i: int,
    t1: Seq<Visit<'a, 't>>,
    t2: Seq<Visit<'a, 't>>,
)
    requires
        answers_determined(ans),
    ensures
        same_walk(forest_from(ans, data, i, t1), forest_from(ans, data, i, t2), t1, t2),
    decreases data@.len() - i,
{
    assert(t1.take(0) =~= t2.take(0));
    if 0 <= i < data@.len() {
        lemma_walk_same(ans, &data@[i], top_ctx(), t1, t2);
        let f1 = walk_from(ans, &data@[i], top_ctx(), t1);
        let f2 = walk_from(ans, &data@[i], top_ctx(), t2);
        if let Some((n, false)) = f1 {
            lemma_forest_same(ans, data, i + 1, t1.skip(n as int), t2.skip(n as int));
        }
        let n1 = if f1 is Some { f1.unwrap().0 } else { 0 };
        let n2 = if f2 is Some { f2.unwrap().0 } else { n1 };
        lemma_then(
            f1,
            f2,
            forest_from(ans, data, i + 1, t1.skip(n1 as int)),
            forest_from(ans, data, i + 1, t2.skip(n2 as int)),
            t1,
            t2,
        );
    }
}

/// With a visitor that gives one answer per datum and region, the visits
/// of a walk are determined: two walks of the same data with the same
/// answers make the same visits. So [`walk`] hands its visitor the classes
/// of exactly the datums and regions, in order, that [`walk_regions`] hands
/// a visitor answering alike.
pub proof fn lemma_walk_determined<'a, 't>(
    ans: spec_fn(&'a Datum<'t>, Region, Walk) -> bool,
    data: &'a [Datum<'t>],
    t1: Seq<Visit<'a, 't>>,
    t2: Seq<Visit<'a, 't>>,
)
    requires
        answers_determined(ans),
        is_walk_of(ans, data, t1),
        is_walk_of(ans, data, t2),
    ensures
        t1 == t2,
{
    lemma_forest_same(ans, data, 0, t1, t2);
    assert(t1.take(t1.len() as int) =~= t1);
    assert(t2.take(t2.len() as int) =~= t2);
}

/// [`walk`] and [`walk_regions`] visit the same datums with the same
/// regions, node for node and in order, when their visitors answer alike:
/// for every datum and region, the class visitor (handed the region's class)
/// can give exactly the answers the region visitor can, one answer each.
pub proof fn lemma_walk_matches_walk_regions<'a, 't, F, G>(
    class_visit: F,
    region_visit: G,
    data: &'a [Datum<'t>],
    t1: Seq<Visit<'a, 't>>,
    t2: Seq<Visit<'a, 't>>,
) where
    F: FnMut(&'a Datum<'t>, Class) -> Walk,
    G: FnMut(&'a Datum<'t>, Region) -> Walk,

    requires
        forall|d: &'a Datum<'t>, r: Region, w: Walk|
            #[trigger] call_ensures(class_visit, (d, r.spec_class()), w) == #[trigger] call_ensures(
                region_visit,
                (d, r),
                w,
            ),
        answers_determined(region_answers(region_visit)),
        is_walk_of(class_answers(class_visit), data, t1),
        is_walk_of(region_answers(region_visit), data, t2),
    ensures
        t1 == t2,
{
    let a1 = class_answers(class_visit);
    let a2 = region_answers(region_visit);
    assert forall|d: &'a Datum<'t>, r: Region, w: Walk| #[trigger] a1(d, r, w) == a2(d, r, w) by {
        assert(call_ensures(class_visit, (d, r.spec_class()), w) == call_ensures(region_visit, (d, r), w));
    }
    assert(a1 =~= a2);
    lemma_walk_determined(a2, data, t1, t2);
}

/// The answers of the pruning policy that [`code_nodes`] follows: skip
/// sealed data, descend into everything else.
pub open spec fn prune_sealed<'a, 't>() -> spec_fn(&'a Datum<'t>, Region, Walk) -> bool {
    |d: &'a Datum<'t>, r: Region, w: Walk|
        w == if r is SealedData {
            Walk::Skip
        } else {
            Walk::Descend
        }
}

/// The data visited in a code region, in order.
pub open spec fn code_visits<'a, 't>(t: Seq<Visit<'a, 't>>) -> Seq<Datum<'t>>
    decreases t.len(),
{
    if t.len() == 0 {
        seq![]
    } else {
        code_visits(t.drop_last()) + if t.last().1 is Code {
            seq![*t.last().0]
        } else {
            seq![]
        }
    }
}

proof fn lemma_code_visits_concat<'a, 't>(a: Seq<Visit<'a, 't>>, b: Seq<Visit<'a, 't>>)
    ensures
        code_visits(a + b) == code_visits(a) + code_visits(b),
    decreases b.len(),
{
    if b.len() == 0 {
        assert(a + b =~= a);
        assert(code_visits(a) + code_visits(b) =~= code_visits(a));
    } else {
        lemma_code_visits_concat(a, b.drop_last());
        assert((a + b).drop_last() =~= a + b.drop_last());
        assert((a + b).last() == b.last());
        assert(code_visits(a + b) =~= code_visits(a) + code_visits(b));
    }
}

/// The code nodes of items, read from the front.
proof fn lemma_items_code_front<'t>(s: Seq<Datum<'t>>, ctx: Ctx)
    requires
        s.len() > 0,
    ensures
        items_code(s, ctx) == code_seq(s[0], ctx) + items_code(s.skip(1), ctx),
    decreases s.len(),
{
    if s.len() == 1 {
        assert(s.drop_last() =~= Seq::<Datum<'t>>::empty());
        assert(s.skip(1) =~= Seq::<Datum<'t>>::empty());
        assert(items_code(s, ctx) =~= code_seq(s[0], ctx) + items_code(s.skip(1), ctx));
    } else {
        lemma_items_code_front(s.drop_last(), ctx);
        assert(s.drop_last().skip(1) =~= s.skip(1).drop_last());
        assert(s.skip(1).last() == s.last());
        assert(s.drop_last()[0] == s[0]);
        assert(items_code(s, ctx) =~= code_seq(s[0], ctx) + items_code(s.skip(1), ctx));
    }
}

proof fn lemma_walk_code<'a, 't>(d: &'a Datum<'t>, ctx: Ctx, t: Seq<Visit<'a, 't>>)
    requires
        walk_from(prune_sealed(), d, ctx, t) is Some,
    ensures
        ({
            let (n, stopped) = walk_from(prune_sealed(), d, ctx, t).unwrap();
            &&& !stopped
            &&& n <= t.len()
            &&& code_visits(t.take(n as int)) == code_seq(*d, ctx)
        }),
    decreases *d, 2nat, 0int,
{
    let r = spec_node_region(*d, ctx);
    let e = t[0];
    let p = prune_sealed::<'a, 't>();
    assert(e.0 == d && e.1 == r && p(d, r, e.2));
    assert(t.take(1) =~= seq![e]);
    assert(seq![e].drop_last() =~= Seq::<Visit<'a, 't>>::empty());
    let head = if r is Code {
        seq![*d]
    } else {
        Seq::<Datum<'t>>::empty()
    };
    assert(code_visits(Seq::<Visit<'a, 't>>::empty()) =~= Seq::<Datum<'t>>::empty());
    assert(seq![e].last() == e);
    assert(code_visits(seq![e]) =~= head);
    if r is SealedData {
        assert(e.2 == Walk::Skip);
        assert(code_seq(*d, ctx) == Seq::<Datum<'t>>::empty());
    } else {
        assert(e.2 == Walk::Descend);
        let c = children_from(p, d, ctx, t.skip(1));
        lemma_children_code(d, ctx, t.skip(1));
        let m = c.unwrap().0;
        assert(t.take((m + 1) as int) =~= seq![e] + t.skip(1).take(m as int));
        lemma_code_visits_concat(seq![e], t.skip(1).take(m as int));
    }
}

proof fn lemma_children_code<'a, 't>(d: &'a Datum<'t>, ctx: Ctx, t: Seq<Visit<'a, 't>>)
    requires
        children_from(prune_sealed(), d, ctx, t) is Some,
    ensures
        ({
            let (n, stopped) = children_from(prune_sealed(), d, ctx, t).unwrap();
            &&& !stopped
            &&& n <= t.len()
            &&& code_visits(t.take(n as int)) == match d.kind {
                DatumKind::List { items, tail, .. } => items_code(items@, ctx) + match tail {
                    Some(tl) => code_seq(*tl, ctx),
                    None => Seq::empty(),
                },
                DatumKind::Prefixed { prefix, inner, arg, .. } => {
                    let before = match arg {
                        Some(a) => code_seq(*a, data_ctx()),
                        None => Seq::empty(),
                    };
                    before + code_seq(*inner, spec_inner_ctx(prefix, ctx))
                },
                DatumKind::HashLiteral { inner: Some(i), .. } => code_seq(*i, data_ctx()),
                DatumKind::Label { inner, .. } => code_seq(*inner, ctx),
                _ => Seq::empty(),
            }
        }),
    decreases *d, 1nat, 0int,
{
    assert(t.take(0) =~= Seq::<Visit<'a, 't>>::empty());
    match d.kind {
        DatumKind::List { items, .. } => {
            lemma_items_code(d, ctx, 0, t);
            assert(items@.skip(0) =~= items@);
        },
        DatumKind::Prefixed { prefix, inner, arg, .. } => {
            let ictx = spec_inner_ctx(prefix, ctx);
            match arg {
                Some(a) => {
                    lemma_walk_code(&*a, data_ctx(), t);
                    let n1 = walk_from(prune_sealed(), &*a, data_ctx(), t).unwrap().0;
                    lemma_walk_code(&*inner, ictx, t.skip(n1 as int));
                    let n2 = walk_from(prune_sealed(), &*inner, ictx, t.skip(n1 as int)).unwrap().0;
                    assert(t.take((n1 + n2) as int) =~= t.take(n1 as int) + t.skip(n1 as int).take(n2 as int));
                    lemma_code_visits_concat(t.take(n1 as int), t.skip(n1 as int).take(n2 as int));
                },
                None => {
                    lemma_walk_code(&*inner, ictx, t);
                    assert(code_visits(Seq::<Visit<'a, 't>>::empty()) =~= Seq::<Datum<'t>>::empty());
                    assert(Seq::<Datum<'t>>::empty() + code_seq(*inner, ictx) =~= code_seq(*inner, ictx));
                },
            }
        },
        DatumKind::HashLiteral { inner: Some(i), .. } => {
            lemma_walk_code(&*i, data_ctx(), t);
        },
        DatumKind::Label { inner, .. } => {
            lemma_walk_code(&*inner, ctx, t);
        },
        _ => {},
    }
}

proof fn lemma_items_code<'a, 't>(d: &'a Datum<'t>, ctx: Ctx, i: int, t: Seq<Visit<'a, 't>>)
    requires
        d.kind is List,
        0 <= i <= d.kind->List_items.len(),
        items_from(prune_sealed(), d, ctx, i, t) is Some,
    ensures
        ({
            let (n, stopped) = items_from(prune_sealed(), d, ctx, i, t).unwrap();
            &&& !stopped
            &&& n <= t.len()
            &&& code_visits(t.take(n as int)) == items_code(d.kind->List_items@.skip(i), ctx) + match d.kind->List_tail {
                Some(tl) => code_seq(*tl, ctx),
                None => Seq::empty(),
            }
        }),
    decreases *d, 0nat, item_count(*d) - i,
{
    assert(t.take(0) =~= Seq::<Visit<'a, 't>>::empty());
    let items = d.kind->List_items;
    let tail = d.kind->List_tail;
    if i < items.len() {
        assert(decreases_to!(*d => items@[i]));
        lemma_walk_code(&items@[i], ctx, t);
        let n1 = walk_from(prune_sealed(), &items@[i], ctx, t).unwrap().0;
        lemma_items_code(d, ctx, i + 1, t.skip(n1 as int));
        let n2 = items_from(prune_sealed(), d, ctx, i + 1, t.skip(n1 as int)).unwrap().0;
        assert(t.take((n1 + n2) as int) =~= t.take(n1 as int) + t.skip(n1 as int).take(n2 as int));
        lemma_code_visits_concat(t.take(n1 as int), t.skip(n1 as int).take(n2 as int));
        lemma_items_code_front(items@.skip(i), ctx);
        assert(items@.skip(i).skip(1) =~= items@.skip(i + 1));
        assert(items@.skip(i)[0] == items@[i]);
        let tc = match tail {
            Some(tl) => code_seq(*tl, ctx),
            None => Seq::<Datum<'t>>::empty(),
        };
        assert(code_seq(items@[i], ctx) + (items_code(items@.skip(i + 1), ctx) + tc) =~= (code_seq(items@[i], ctx)
            + items_code(items@.skip(i + 1), ctx)) + tc);
    } else {
        assert(items@.skip(i) =~= Seq::<Datum<'t>>::empty());
        assert(items_code(items@.skip(i), ctx) =~= Seq::<Datum<'t>>::empty());
        match tail {
            Some(tl) => {
                lemma_walk_code(&*tl, ctx, t);
                assert(Seq::<Datum<'t>>::empty() + code_seq(*tl, ctx) =~= code_seq(*tl, ctx));
            },
            None => {
                assert(code_visits(Seq::<Visit<'a, 't>>::empty()) =~= Seq::<Datum<'t>>::empty());
            },
        }
    }
}

proof fn lemma_forest_code<'a, 't>(data: &'a [Datum<'t>], i: int, t: Seq<Visit<'a, 't>>)
    requires
        0 <= i <= data@.len(),
        forest_from(prune_sealed(), data, i, t) is Some,
    ensures
        ({
            let (n, stopped) = forest_from(prune_sealed(), data, i, t).unwrap();
            &&& !stopped
            &&& n <= t.len()
            &&& code_visits(t.take(n as int)) == items_code(data@.skip(i), top_ctx())
        }),
    decreases data@.len() - i,
{
    assert(t.take(0) =~= Seq::<Visit<'a, 't>>::empty());
    if i < data@.len() {
        lemma_walk_code(&data@[i], top_ctx(), t);
        let n1 = walk_from(prune_sealed(), &data@[i], top_ctx(), t).unwrap().0;
        lemma_forest_code(data, i + 1, t.skip(n1 as int));
        let n2 = forest_from(prune_sealed(), data, i + 1, t.skip(n1 as int)).unwrap().0;
        assert(t.take((n1 + n2) as int) =~= t.take(n1 as int) + t.skip(n1 as int).take(n2 as int));
        lemma_code_visits_concat(t.take(n1 as int), t.skip(n1 as int).take(n2 as int));
        lemma_items_code_front(data@.skip(i), top_ctx());
        assert(data@.skip(i).skip(1) =~= data@.skip(i + 1));
        assert(data@.skip(i)[0] == data@[i]);
    } else {
        assert(data@.skip(i) =~= Seq::<Datum<'t>>::empty());
        assert(code_visits(Seq::<Visit<'a, 't>>::empty()) =~= Seq::<Datum<'t>>::empty());
    }
}

/// A walk that prunes sealed data and descends everything else visits, in a
/// code region, exactly the code nodes of the forest ([`forest_code`], what
/// [`code_nodes`] yields), in order; it never stops early.
pub proof fn lemma_code_nodes_walk<'a, 't>(data: &'a [Datum<'t>], visits: Seq<Visit<'a, 't>>)
    requires
        is_walk_of(prune_sealed(), data, visits),
    ensures
        code_visits(visits) == forest_code(data@),
{
    lemma_forest_code(data, 0, visits);
    assert(visits.take(visits.len() as int) =~= visits);
    assert(data@.skip(0) =~= data@);
}

/// Walk each top-level datum in `data`, invoking `visit(datum, class)` in
/// pre-order. When the callback returns [`Walk::Skip`], that datum's
/// children are pruned; [`Walk::Descend`] recurses; [`Walk::Stop`] aborts the
/// whole walk. Top-level data start as [`Class::Code`].
///
/// Do not use `Skip` to prune on [`Class::Data`]: a quasiquote template is
/// data, yet a nested `unquote` inside it is code. To prune safely, use
/// [`walk_regions`] and [`Region::is_prunable`].
///
/// Returns, as a ghost record, the visits made: exactly the walk of `data`
/// ([`is_walk_of`]), each with the region whose class the visitor was handed
/// and the visitor's answer.
pub fn walk<'a, 't, F>(data: &'a [Datum<'t>], visit: F) -> (visits: Ghost<Seq<Visit<'a, 't>>>) where
    F: FnMut(&'a Datum<'t>, Class) -> Walk,

    requires
        forall|d: &'a Datum<'t>, c: Class| call_requires(visit, (d, c)),
    ensures
        is_walk_of(class_answers(visit), data, visits@),
{
    let ghost ans = class_answers(visit);
    let mut visit = visit;
    let mut i: usize = 0;
    let ghost mut acc: Seq<Visit<'a, 't>> = seq![];
    proof {
        assert forall|s: Seq<Visit<'a, 't>>|
            #[trigger] forest_from(ans, data, 0, acc + s) == shifted(acc.len(), forest_from(ans, data, 0, s)) by {
            assert(acc + s =~= s);
        }
    }
    while i < data.len()
        invariant
            i <= data.len(),
            forall|d: &'a Datum<'t>, c: Class| call_requires(visit, (d, c)),
            ans == class_answers(visit),
            forall|s: Seq<Visit<'a, 't>>|
                #[trigger] forest_from(ans, data, 0, acc + s) == shifted(acc.len(), forest_from(ans, data, i as int, s)),
        decreases data.len() - i,
    {
        let (stopped, c) = walk_class_datum(&data[i], Ctx::top(), &mut visit);
        proof {
            assert forall|s: Seq<Visit<'a, 't>>|
                #[trigger] forest_from(ans, data, 0, (acc + c@) + s) == if stopped {
                    Some(((acc + c@).len(), true))
                } else {
                    shifted((acc + c@).len(), forest_from(ans, data, i + 1, s))
                } by {
                assert((acc + c@) + s =~= acc + (c@ + s));
                assert(walk_from(ans, &data@[i as int], top_ctx(), c@ + s) == Some((c@.len(), stopped)));
                lemma_after(c@, s);
            }
            acc = acc + c@;
        }
        if stopped {
            proof {
                assert(forest_from(ans, data, 0, acc + seq![]) == Some((acc.len(), true)));
                assert(acc + seq![] =~= acc);
            }
            return Ghost(acc);
        }
        i = i + 1;
    }
    proof {
        assert(forest_from(ans, data, 0, acc + seq![]) == shifted(acc.len(), forest_from(ans, data, i as int, seq![])));
        assert(acc + seq![] =~= acc);
    }
    Ghost(acc)
}

/// Like [`walk`], but the callback receives a three-way [`Region`] instead
/// of the binary [`Class`], so pruning is safe: [`Region::is_prunable`] tells
/// whether [`Walk::Skip`] would lose code.
///
/// Returns, as a ghost record, the visits made: exactly the walk of `data`
/// ([`is_walk_of`]) — pre-order, each datum with its region and the
/// visitor's answer, `Skip` pruning the datum's children and `Stop` ending
/// the walk.
pub fn walk_regions<'a, 't, F>(data: &'a [Datum<'t>], visit: F) -> (visits: Ghost<Seq<Visit<'a, 't>>>) where
    F: FnMut(&'a Datum<'t>, Region) -> Walk,

    requires
        forall|d: &'a Datum<'t>, r: Region| call_requires(visit, (d, r)),
    ensures
        is_walk_of(region_answers(visit), data, visits@),
{
    let ghost ans = region_answers(visit);
    let mut visit = visit;
    let mut i: usize = 0;
    let ghost mut acc: Seq<Visit<'a, 't>> = seq![];
    proof {
        assert forall|s: Seq<Visit<'a, 't>>|
            #[trigger] forest_from(ans, data, 0, acc + s) == shifted(acc.len(), forest_from(ans, data, 0, s)) by {
            assert(acc + s =~= s);
        }
    }
    while i < data.len()
        invariant
            i <= data.len(),
            forall|d: &'a Datum<'t>, r: Region| call_requires(visit, (d, r)),
            ans == region_answers(visit),
            forall|s: Seq<Visit<'a, 't>>|
                #[trigger] forest_from(ans, data, 0, acc + s) == shifted(acc.len(), forest_from(ans, data, i as int, s)),
        decreases data.len() - i,
    {
        let (stopped, c) = walk_region_datum(&data[i], Ctx::top(), &mut visit);
        proof {
            assert forall|s: Seq<Visit<'a, 't>>|
                #[trigger] forest_from(ans, data, 0, (acc + c@) + s) == if stopped {
                    Some(((acc + c@).len(), true))
                } else {
                    shifted((acc + c@).len(), forest_from(ans, data, i + 1, s))
                } by {
                assert((acc + c@) + s =~= acc + (c@ + s));
                assert(walk_from(ans, &data@[i as int], top_ctx(), c@ + s) == Some((c@.len(), stopped)));
                lemma_after(c@, s);
            }
            acc = acc + c@;
        }
        if stopped {
            proof {
                assert(forest_from(ans, data, 0, acc + seq![]) == Some((acc.len(), true)));
                assert(acc + seq![] =~= acc);
            }
            return Ghost(acc);
        }
        i = i + 1;
    }
    proof {
        assert(forest_from(ans, data, 0, acc + seq![]) == shifted(acc.len(), forest_from(ans, data, i as int, seq![])));
        assert(acc + seq![] =~= acc);
    }
    Ghost(acc)
}

/// The answers a region visitor can give: `ans(d, r, w)` when `visit` can
/// answer `w` at datum `d` in region `r`.
pub open spec fn region_answers<'a, 't, F: FnMut(&'a Datum<'t>, Region) -> Walk>(visit: F) -> spec_fn(
    &'a Datum<'t>,
    Region,
    Walk,
) -> bool {
    |x: &'a Datum<'t>, r: Region, w: Walk| call_ensures(visit, (x, r), w)
}

/// The answers a class visitor can give, by region: `ans(d, r, w)` when
/// `visit` can answer `w` at datum `d` of region `r`'s class.
pub open spec fn class_answers<'a, 't, F: FnMut(&'a Datum<'t>, Class) -> Walk>(visit: F) -> spec_fn(
    &'a Datum<'t>,
    Region,
    Walk,
) -> bool {
    |x: &'a Datum<'t>, r: Region, w: Walk| call_ensures(visit, (x, r.spec_class()), w)
}

/// Whether walking `d` in context `ctx`, with a visitor whose possible
/// answers are `ans`, can stop: the visitor can answer `Stop` at `d`, or can
/// answer `Descend` and the walk of some child can stop.
spec fn may_stop<'a, 't>(ans: spec_fn(&'a Datum<'t>, Region, Walk) -> bool, d: &'a Datum<'t>, ctx: Ctx) -> bool
    decreases *d, 1nat,
{
    let r = spec_node_region(*d, ctx);
    ||| ans(d, r, Walk::Stop)
    ||| ans(d, r, Walk::Descend) && children_stop(ans, d, ctx, false)
}

/// Whether walking `d` in context `ctx`, with a visitor whose possible
/// answers are `ans`, must stop: every answer the visitor can give at `d` is
/// `Stop`, or `Descend` with a child whose walk must stop.
spec fn must_stop<'a, 't>(ans: spec_fn(&'a Datum<'t>, Region, Walk) -> bool, d: &'a Datum<'t>, ctx: Ctx) -> bool
    decreases *d, 1nat,
{
    let r = spec_node_region(*d, ctx);
    forall|w: Walk|
        #[trigger] ans(d, r, w) ==> (w is Stop || (w is Descend && children_stop(ans, d, ctx, true)))
}

/// Whether the walk of some child of `d`, in the context it inherits from
/// `ctx`, must stop (when `must`) or can stop (otherwise).
spec fn children_stop<'a, 't>(
    ans: spec_fn(&'a Datum<'t>, Region, Walk) -> bool,
    d: &'a Datum<'t>,
    ctx: Ctx,
    must: bool,
) -> bool
    decreases *d, 0nat,
{
    match d.kind {
        DatumKind::List { items, tail, .. } => {
            proof {
                assert forall|i: int| 0 <= i < items.len() implies decreases_to!(*d => items@[i]) by {
                    assert(decreases_to!(*d => items@[i]));
                }
            }
            ||| exists|i: int| 0 <= i < items.len() && stops(ans, &items@[i], ctx, must)
            ||| match tail {
                Some(t) => stops(ans, &*t, ctx, must),
                None => false,
            }
        },
        DatumKind::Prefixed { prefix, inner, arg, .. } => {
            ||| match arg {
                Some(a) => stops(ans, &*a, data_ctx(), must),
                None => false,
            }
            ||| stops(ans, &*inner, spec_inner_ctx(prefix, ctx), must)
        },
        DatumKind::HashLiteral { inner: Some(i), .. } => stops(ans, &*i, data_ctx(), must),
        DatumKind::Label { inner, .. } => stops(ans, &*inner, ctx, must),
        _ => false,
    }
}

/// [`must_stop`] when `must`, else [`may_stop`].
spec fn stops<'a, 't>(
    ans: spec_fn(&'a Datum<'t>, Region, Walk) -> bool,
    d: &'a Datum<'t>,
    ctx: Ctx,
    must: bool,
) -> bool
    decreases *d, 2nat,
{
    if must {
        must_stop(ans, d, ctx)
    } else {
        may_stop(ans, d, ctx)
    }
}

/// A visit answered `Skip` or `Stop` is the whole walk of its datum.
proof fn lemma_walk_leaf<'a, 't>(
    ans: spec_fn(&'a Datum<'t>, Region, Walk) -> bool,
    d: &'a Datum<'t>,
    ctx: Ctx,
    w: Walk,
)
    requires
        ans(d, spec_node_region(*d, ctx), w),
        !(w is Descend),
    ensures
        forall|s: Seq<Visit<'a, 't>>|
            #[trigger] walk_from(ans, d, ctx, seq![(d, spec_node_region(*d, ctx), w)] + s) == Some(
                (1nat, w is Stop),
            ),
{
    assert forall|s: Seq<Visit<'a, 't>>|
        #[trigger] walk_from(ans, d, ctx, seq![(d, spec_node_region(*d, ctx), w)] + s) == Some(
            (1nat, w is Stop),
        ) by {
        let t = seq![(d, spec_node_region(*d, ctx), w)] + s;
        assert(t[0] == (d, spec_node_region(*d, ctx), w));
    }
}

/// A visit answered `Descend` followed by the children's walks `kids` is
/// the walk of its datum.
proof fn lemma_walk_descend<'a, 't>(
    ans: spec_fn(&'a Datum<'t>, Region, Walk) -> bool,
    d: &'a Datum<'t>,
    ctx: Ctx,
    kids: Seq<Visit<'a, 't>>,
    stopped: bool,
)
    requires
        ans(d, spec_node_region(*d, ctx), Walk::Descend),
        forall|s: Seq<Visit<'a, 't>>|
            #[trigger] children_from(ans, d, ctx, kids + s) == Some((kids.len(), stopped)),
    ensures
        forall|s: Seq<Visit<'a, 't>>|
            #[trigger] walk_from(ans, d, ctx, seq![(d, spec_node_region(*d, ctx), Walk::Descend)] + kids + s)
                == Some(((kids.len() + 1) as nat, stopped)),
{
    assert forall|s: Seq<Visit<'a, 't>>|
        #[trigger] walk_from(ans, d, ctx, seq![(d, spec_node_region(*d, ctx), Walk::Descend)] + kids + s)
            == Some(((kids.len() + 1) as nat, stopped)) by {
        let e = (d, spec_node_region(*d, ctx), Walk::Descend);
        let t = seq![e] + kids + s;
        assert(t[0] == e);
        assert(t.skip(1) =~= kids + s);
        assert(children_from(ans, d, ctx, kids + s) == Some((kids.len(), stopped)));
    }
}

/// A child walk `c` that did not stop, followed by anything, hands the rest
/// on.
proof fn lemma_after<'a, 't>(c: Seq<Visit<'a, 't>>, s: Seq<Visit<'a, 't>>)
    ensures
        (c + s).skip(c.len() as int) == s,
{
    assert((c + s).skip(c.len() as int) =~= s);
}

/// Visit `datum` in region context `ctx`, then, if the visitor says so, its
/// children in order. `true` when the visitor asked to stop: then the walk
/// could stop ([`may_stop`]), and whenever it must stop ([`must_stop`]) it
/// does. Also returns the visits made: exactly the walk of `datum`
/// ([`walk_from`]). The visitor is left as it was.
#[verifier::spinoff_prover]
#[verifier::rlimit(50)]
fn walk_region_datum<'a, 't, F>(datum: &'a Datum<'t>, ctx: Ctx, visit: &mut F) -> (r: (bool, Ghost<Seq<Visit<'a, 't>>>)) where
    F: FnMut(&'a Datum<'t>, Region) -> Walk,

    requires
        forall|d: &'a Datum<'t>, r: Region| call_requires(*old(visit), (d, r)),
    ensures
        forall|d: &'a Datum<'t>, r: Region| call_requires(*final(visit), (d, r)),
        *final(visit) == *old(visit),
        r.0 ==> may_stop(region_answers(*old(visit)), datum, ctx),
        must_stop(region_answers(*old(visit)), datum, ctx) ==> r.0,
        forall|s: Seq<Visit<'a, 't>>|
            #[trigger] walk_from(region_answers(*old(visit)), datum, ctx, r.1@ + s) == Some((r.1@.len(), r.0)),
    decreases datum,
{
    let ghost ans = region_answers(*old(visit));
    let region = node_region(datum, ctx);
    let w = (*visit)(datum, region);
    let ghost e: Visit<'a, 't> = (datum, region, w);
    proof {
        assert(ans(datum, region, w));
    }
    let one: Ghost<Seq<Visit<'a, 't>>> = Ghost(Seq::empty().push(e));
    match w {
        Walk::Skip => {
            proof {
                lemma_walk_leaf(ans, datum, ctx, w);
            }
            return (false, one);
        },
        Walk::Stop => {
            proof {
                lemma_walk_leaf(ans, datum, ctx, w);
            }
            return (true, one);
        },
        Walk::Descend => {},
    }
    let (stopped, kids) = match &datum.kind {
        DatumKind::List { items, tail, .. } => {
            let mut i: usize = 0;
            let mut stopped = false;
            let ghost mut kids: Seq<Visit<'a, 't>> = seq![];
            proof {
                assert forall|s: Seq<Visit<'a, 't>>|
                    #[trigger] items_from(ans, datum, ctx, 0, kids + s) == shifted(kids.len(), items_from(ans, datum, ctx, 0, s)) by {
                    assert(kids + s =~= s);
                }
            }
            while i < items.len() && !stopped
                invariant
                    i <= items.len(),
                    forall|d: &'a Datum<'t>, r: Region| call_requires(*visit, (d, r)),
                    *visit == *old(visit),
                    ans == region_answers(*visit),
                    datum.kind->List_items == *items,
                    datum.kind->List_tail == *tail,
                    !stopped ==> forall|k: int| 0 <= k < i ==> !#[trigger] stops(ans, &items@[k], ctx, true),
                    stopped ==> children_stop(ans, datum, ctx, false),
                    !stopped ==> forall|s: Seq<Visit<'a, 't>>|
                        #[trigger] items_from(ans, datum, ctx, 0, kids + s) == shifted(kids.len(), items_from(ans, datum, ctx, i as int, s)),
                    stopped ==> forall|s: Seq<Visit<'a, 't>>|
                        #[trigger] items_from(ans, datum, ctx, 0, kids + s) == Some((kids.len(), true)),
                decreases items.len() - i,
            {
                proof {
                    assert(decreases_to!(*datum => items@[i as int]));
                }
                let (b, c) = walk_region_datum(&items[i], ctx, visit);
                proof {
                    assert forall|s: Seq<Visit<'a, 't>>|
                        #[trigger] items_from(ans, datum, ctx, 0, (kids + c@) + s) == if b {
                            Some(((kids + c@).len(), true))
                        } else {
                            shifted((kids + c@).len(), items_from(ans, datum, ctx, i + 1, s))
                        } by {
                        assert((kids + c@) + s =~= kids + (c@ + s));
                        assert(walk_from(ans, &items@[i as int], ctx, c@ + s) == Some((c@.len(), b)));
                        lemma_after(c@, s);
                        assert(items_from(ans, datum, ctx, i as int, c@ + s) == if b {
                            Some((c@.len(), true))
                        } else {
                            shifted(c@.len(), items_from(ans, datum, ctx, i + 1, s))
                        });
                    }
                    if b {
                        assert(stops(ans, &items@[i as int], ctx, false));
                        assert(children_stop(ans, datum, ctx, false));
                    }
                    kids = kids + c@;
                }
                stopped = b;
                i = i + 1;
            }
            if stopped {
                proof {
                    assert forall|s: Seq<Visit<'a, 't>>|
                        #[trigger] children_from(ans, datum, ctx, kids + s) == Some((kids.len(), true)) by {
                        assert(items_from(ans, datum, ctx, 0, kids + s) == Some((kids.len(), true)));
                    }
                }
                { let g: Ghost<Seq<Visit<'a, 't>>> = Ghost(kids); (true, g) }
            } else {
                let (b, c) = match tail {
                    Some(t) => walk_region_datum(&**t, ctx, visit),
                    None => { let g: Ghost<Seq<Visit<'a, 't>>> = Ghost(Seq::empty()); (false, g) },
                };
                proof {
                    assert forall|s: Seq<Visit<'a, 't>>|
                        #[trigger] children_from(ans, datum, ctx, (kids + c@) + s) == Some(((kids + c@).len(), b)) by {
                        assert((kids + c@) + s =~= kids + (c@ + s));
                        assert(items_from(ans, datum, ctx, 0, kids + (c@ + s)) == shifted(kids.len(), items_from(ans, datum, ctx, items.len() as int, c@ + s)));
                        match tail {
                            Some(t) => {
                                assert(walk_from(ans, &**t, ctx, c@ + s) == Some((c@.len(), b)));
                            },
                            None => {},
                        }
                    }
                    if b {
                        assert(stops(ans, &*tail.unwrap(), ctx, false));
                    } else {
                        assert(forall|k: int| 0 <= k < items.len() ==> !#[trigger] stops(ans, &items@[k], ctx, true));
                        match tail {
                            Some(t) => assert(!stops(ans, &**t, ctx, true)),
                            None => {},
                        }
                        assert(!(exists|k: int| 0 <= k < items.len() && stops(ans, &items@[k], ctx, true)));
                        assert(!children_stop(ans, datum, ctx, true));
                    }
                }
                { let g: Ghost<Seq<Visit<'a, 't>>> = Ghost(kids + c@); (b, g) }
            }
        },
        DatumKind::Prefixed { prefix, inner, arg, .. } => {
            let ictx = inner_ctx(*prefix, ctx);
            let (b1, c1) = match arg {
                Some(a) => walk_region_datum(&**a, Ctx::data(), visit),
                None => { let g: Ghost<Seq<Visit<'a, 't>>> = Ghost(Seq::empty()); (false, g) },
            };
            if b1 {
                proof {
                    let a = arg.unwrap();
                    assert(stops(ans, &*a, data_ctx(), false));
                    assert forall|s: Seq<Visit<'a, 't>>|
                        #[trigger] children_from(ans, datum, ctx, c1@ + s) == Some((c1@.len(), true)) by {
                        assert(walk_from(ans, &*a, data_ctx(), c1@ + s) == Some((c1@.len(), true)));
                    }
                }
                (true, c1)
            } else {
                let (b2, c2) = walk_region_datum(&**inner, ictx, visit);
                proof {
                    assert forall|s: Seq<Visit<'a, 't>>|
                        #[trigger] children_from(ans, datum, ctx, (c1@ + c2@) + s) == Some(((c1@ + c2@).len(), b2)) by {
                        assert((c1@ + c2@) + s =~= c1@ + (c2@ + s));
                        lemma_after(c1@, c2@ + s);
                        match arg {
                            Some(a) => {
                                assert(walk_from(ans, &**a, data_ctx(), c1@ + (c2@ + s)) == Some((c1@.len(), false)));
                            },
                            None => {
                                assert(c1@ + (c2@ + s) =~= c2@ + s);
                            },
                        }
                        assert(walk_from(ans, &**inner, ictx, c2@ + s) == Some((c2@.len(), b2)));
                    }
                    if b2 {
                        assert(stops(ans, &**inner, spec_inner_ctx(*prefix, ctx), false));
                    } else {
                        assert(!children_stop(ans, datum, ctx, true));
                    }
                }
                { let g: Ghost<Seq<Visit<'a, 't>>> = Ghost(c1@ + c2@); (b2, g) }
            }
        },
        // A hash literal's content is data; a datum label is transparent.
        DatumKind::HashLiteral { inner: Some(i), .. } => {
            let (b, c) = walk_region_datum(&**i, Ctx::data(), visit);
            proof {
                assert forall|s: Seq<Visit<'a, 't>>|
                    #[trigger] children_from(ans, datum, ctx, c@ + s) == Some((c@.len(), b)) by {
                    assert(walk_from(ans, &**i, data_ctx(), c@ + s) == Some((c@.len(), b)));
                }
                if b {
                    assert(stops(ans, &**i, data_ctx(), false));
                } else {
                    assert(!children_stop(ans, datum, ctx, true));
                }
            }
            (b, c)
        },
        DatumKind::Label { inner, .. } => {
            let (b, c) = walk_region_datum(&**inner, ctx, visit);
            proof {
                assert forall|s: Seq<Visit<'a, 't>>|
                    #[trigger] children_from(ans, datum, ctx, c@ + s) == Some((c@.len(), b)) by {
                    assert(walk_from(ans, &**inner, ctx, c@ + s) == Some((c@.len(), b)));
                }
                if b {
                    assert(stops(ans, &**inner, ctx, false));
                } else {
                    assert(!children_stop(ans, datum, ctx, true));
                }
            }
            (b, c)
        },
        _ => {
            proof {
                assert(!children_stop(ans, datum, ctx, true));
                assert forall|s: Seq<Visit<'a, 't>>|
                    #[trigger] children_from(ans, datum, ctx, seq![] + s) == Some((0nat, false)) by {
                }
            }
            { let g: Ghost<Seq<Visit<'a, 't>>> = Ghost(Seq::empty()); (false, g) }
        },
    };
    proof {
        lemma_walk_descend(ans, datum, ctx, kids@, stopped);
        assert forall|s: Seq<Visit<'a, 't>>|
            #[trigger] walk_from(ans, datum, ctx, (seq![e] + kids@) + s) == Some(((seq![e] + kids@).len(), stopped)) by {
            assert((seq![e] + kids@) + s =~= seq![e] + kids@ + s);
        }
    }
    { let g: Ghost<Seq<Visit<'a, 't>>> = Ghost(seq![e] + kids@); (stopped, g) }
}

/// [`walk_region_datum`] with the binary class handed to the visitor; the
/// visits it returns record each datum's region, whose class the visitor
/// was handed.
#[verifier::spinoff_prover]
#[verifier::rlimit(50)]
fn walk_class_datum<'a, 't, F>(datum: &'a Datum<'t>, ctx: Ctx, visit: &mut F) -> (r: (bool, Ghost<Seq<Visit<'a, 't>>>)) where
    F: FnMut(&'a Datum<'t>, Class) -> Walk,

    requires
        forall|d: &'a Datum<'t>, c: Class| call_requires(*old(visit), (d, c)),
    ensures
        forall|d: &'a Datum<'t>, c: Class| call_requires(*final(visit), (d, c)),
        *final(visit) == *old(visit),
        r.0 ==> may_stop(class_answers(*old(visit)), datum, ctx),
        must_stop(class_answers(*old(visit)), datum, ctx) ==> r.0,
        forall|s: Seq<Visit<'a, 't>>|
            #[trigger] walk_from(class_answers(*old(visit)), datum, ctx, r.1@ + s) == Some((r.1@.len(), r.0)),
    decreases datum,
{
    let ghost ans = class_answers(*old(visit));
    let region = node_region(datum, ctx);
    let w = (*visit)(datum, region.class());
    let ghost e: Visit<'a, 't> = (datum, region, w);
    proof {
        assert(ans(datum, region, w));
    }
    let one: Ghost<Seq<Visit<'a, 't>>> = Ghost(Seq::empty().push(e));
    match w {
        Walk::Skip => {
            proof {
                lemma_walk_leaf(ans, datum, ctx, w);
            }
            return (false, one);
        },
        Walk::Stop => {
            proof {
                lemma_walk_leaf(ans, datum, ctx, w);
            }
            return (true, one);
        },
        Walk::Descend => {},
    }
    let (stopped, kids) = match &datum.kind {
        DatumKind::List { items, tail, .. } => {
            let mut i: usize = 0;
            let mut stopped = false;
            let ghost mut kids: Seq<Visit<'a, 't>> = seq![];
            proof {
                assert forall|s: Seq<Visit<'a, 't>>|
                    #[trigger] items_from(ans, datum, ctx, 0, kids + s) == shifted(kids.len(), items_from(ans, datum, ctx, 0, s)) by {
                    assert(kids + s =~= s);
                }
            }
            while i < items.len() && !stopped
                invariant
                    i <= items.len(),
                    forall|d: &'a Datum<'t>, c: Class| call_requires(*visit, (d, c)),
                    *visit == *old(visit),
                    ans == class_answers(*visit),
                    datum.kind->List_items == *items,
                    datum.kind->List_tail == *tail,
                    !stopped ==> forall|k: int| 0 <= k < i ==> !#[trigger] stops(ans, &items@[k], ctx, true),
                    stopped ==> children_stop(ans, datum, ctx, false),
                    !stopped ==> forall|s: Seq<Visit<'a, 't>>|
                        #[trigger] items_from(ans, datum, ctx, 0, kids + s) == shifted(kids.len(), items_from(ans, datum, ctx, i as int, s)),
                    stopped ==> forall|s: Seq<Visit<'a, 't>>|
                        #[trigger] items_from(ans, datum, ctx, 0, kids + s) == Some((kids.len(), true)),
                decreases items.len() - i,
            {
                proof {
                    assert(decreases_to!(*datum => items@[i as int]));
                }
                let (b, c) = walk_class_datum(&items[i], ctx, visit);
                proof {
                    assert forall|s: Seq<Visit<'a, 't>>|
                        #[trigger] items_from(ans, datum, ctx, 0, (kids + c@) + s) == if b {
                            Some(((kids + c@).len(), true))
                        } else {
                            shifted((kids + c@).len(), items_from(ans, datum, ctx, i + 1, s))
                        } by {
                        assert((kids + c@) + s =~= kids + (c@ + s));
                        assert(walk_from(ans, &items@[i as int], ctx, c@ + s) == Some((c@.len(), b)));
                        lemma_after(c@, s);
                        assert(items_from(ans, datum, ctx, i as int, c@ + s) == if b {
                            Some((c@.len(), true))
                        } else {
                            shifted(c@.len(), items_from(ans, datum, ctx, i + 1, s))
                        });
                    }
                    if b {
                        assert(stops(ans, &items@[i as int], ctx, false));
                        assert(children_stop(ans, datum, ctx, false));
                    }
                    kids = kids + c@;
                }
                stopped = b;
                i = i + 1;
            }
            if stopped {
                proof {
                    assert forall|s: Seq<Visit<'a, 't>>|
                        #[trigger] children_from(ans, datum, ctx, kids + s) == Some((kids.len(), true)) by {
                        assert(items_from(ans, datum, ctx, 0, kids + s) == Some((kids.len(), true)));
                    }
                }
                { let g: Ghost<Seq<Visit<'a, 't>>> = Ghost(kids); (true, g) }
            } else {
                let (b, c) = match tail {
                    Some(t) => walk_class_datum(&**t, ctx, visit),
                    None => { let g: Ghost<Seq<Visit<'a, 't>>> = Ghost(Seq::empty()); (false, g) },
                };
                proof {
                    assert forall|s: Seq<Visit<'a, 't>>|
                        #[trigger] children_from(ans, datum, ctx, (kids + c@) + s) == Some(((kids + c@).len(), b)) by {
                        assert((kids + c@) + s =~= kids + (c@ + s));
                        assert(items_from(ans, datum, ctx, 0, kids + (c@ + s)) == shifted(kids.len(), items_from(ans, datum, ctx, items.len() as int, c@ + s)));
                        match tail {
                            Some(t) => {
                                assert(walk_from(ans, &**t, ctx, c@ + s) == Some((c@.len(), b)));
                            },
                            None => {},
                        }
                    }
                    if b {
                        assert(stops(ans, &*tail.unwrap(), ctx, false));
                    } else {
                        assert(forall|k: int| 0 <= k < items.len() ==> !#[trigger] stops(ans, &items@[k], ctx, true));
                        match tail {
                            Some(t) => assert(!stops(ans, &**t, ctx, true)),
                            None => {},
                        }
                        assert(!(exists|k: int| 0 <= k < items.len() && stops(ans, &items@[k], ctx, true)));
                        assert(!children_stop(ans, datum, ctx, true));
                    }
                }
                { let g: Ghost<Seq<Visit<'a, 't>>> = Ghost(kids + c@); (b, g) }
            }
        },
        DatumKind::Prefixed { prefix, inner, arg, .. } => {
            let ictx = inner_ctx(*prefix, ctx);
            let (b1, c1) = match arg {
                Some(a) => walk_class_datum(&**a, Ctx::data(), visit),
                None => { let g: Ghost<Seq<Visit<'a, 't>>> = Ghost(Seq::empty()); (false, g) },
            };
            if b1 {
                proof {
                    let a = arg.unwrap();
                    assert(stops(ans, &*a, data_ctx(), false));
                    assert forall|s: Seq<Visit<'a, 't>>|
                        #[trigger] children_from(ans, datum, ctx, c1@ + s) == Some((c1@.len(), true)) by {
                        assert(walk_from(ans, &*a, data_ctx(), c1@ + s) == Some((c1@.len(), true)));
                    }
                }
                (true, c1)
            } else {
                let (b2, c2) = walk_class_datum(&**inner, ictx, visit);
                proof {
                    assert forall|s: Seq<Visit<'a, 't>>|
                        #[trigger] children_from(ans, datum, ctx, (c1@ + c2@) + s) == Some(((c1@ + c2@).len(), b2)) by {
                        assert((c1@ + c2@) + s =~= c1@ + (c2@ + s));
                        lemma_after(c1@, c2@ + s);
                        match arg {
                            Some(a) => {
                                assert(walk_from(ans, &**a, data_ctx(), c1@ + (c2@ + s)) == Some((c1@.len(), false)));
                            },
                            None => {
                                assert(c1@ + (c2@ + s) =~= c2@ + s);
                            },
                        }
                        assert(walk_from(ans, &**inner, ictx, c2@ + s) == Some((c2@.len(), b2)));
                    }
                    if b2 {
                        assert(stops(ans, &**inner, spec_inner_ctx(*prefix, ctx), false));
                    } else {
                        assert(!children_stop(ans, datum, ctx, true));
                    }
                }
                { let g: Ghost<Seq<Visit<'a, 't>>> = Ghost(c1@ + c2@); (b2, g) }
            }
        },
        // A hash literal's content is data; a datum label is transparent.
        DatumKind::HashLiteral { inner: Some(i), .. } => {
            let (b, c) = walk_class_datum(&**i, Ctx::data(), visit);
            proof {
                assert forall|s: Seq<Visit<'a, 't>>|
                    #[trigger] children_from(ans, datum, ctx, c@ + s) == Some((c@.len(), b)) by {
                    assert(walk_from(ans, &**i, data_ctx(), c@ + s) == Some((c@.len(), b)));
                }
                if b {
                    assert(stops(ans, &**i, data_ctx(), false));
                } else {
                    assert(!children_stop(ans, datum, ctx, true));
                }
            }
            (b, c)
        },
        DatumKind::Label { inner, .. } => {
            let (b, c) = walk_class_datum(&**inner, ctx, visit);
            proof {
                assert forall|s: Seq<Visit<'a, 't>>|
                    #[trigger] children_from(ans, datum, ctx, c@ + s) == Some((c@.len(), b)) by {
                    assert(walk_from(ans, &**inner, ctx, c@ + s) == Some((c@.len(), b)));
                }
                if b {
                    assert(stops(ans, &**inner, ctx, false));
                } else {
                    assert(!children_stop(ans, datum, ctx, true));
                }
            }
            (b, c)
        },
        _ => {
            proof {
                assert(!children_stop(ans, datum, ctx, true));
                assert forall|s: Seq<Visit<'a, 't>>|
                    #[trigger] children_from(ans, datum, ctx, seq![] + s) == Some((0nat, false)) by {
                }
            }
            { let g: Ghost<Seq<Visit<'a, 't>>> = Ghost(Seq::empty()); (false, g) }
        },
    };
    proof {
        lemma_walk_descend(ans, datum, ctx, kids@, stopped);
        assert forall|s: Seq<Visit<'a, 't>>|
            #[trigger] walk_from(ans, datum, ctx, (seq![e] + kids@) + s) == Some(((seq![e] + kids@).len(), stopped)) by {
            assert((seq![e] + kids@) + s =~= seq![e] + kids@ + s);
        }
    }
    { let g: Ghost<Seq<Visit<'a, 't>>> = Ghost(seq![e] + kids@); (stopped, g) }
}



/// The code nodes of a datum forest, in pre-order, created by
/// [`code_nodes`]: sealed data is pruned, porous quasiquote templates are
/// descended (so nested unquoted code is reached), and each code node is
/// yielded once, parent before child.
pub struct CodeNodes<'a, 't> {
    nodes: Vec<&'a Datum<'t>>,
    next: usize,
}

impl<'a, 't> CodeNodes<'a, 't> {
    /// The code nodes not yet yielded, in order.
    pub closed spec fn remaining(&self) -> Seq<Datum<'t>> {
        deref_seq(self.nodes@).skip(self.next as int)
    }

    /// The iterator's invariant.
    pub closed spec fn wf(&self) -> bool {
        self.next <= self.nodes.len()
    }

    /// The next code node, or `None` once all have been yielded (and ever
    /// after).
    pub fn next(&mut self) -> (r: Option<&'a Datum<'t>>)
        requires
            old(self).wf(),
        ensures
            final(self).wf(),
            match r {
                Some(d) => old(self).remaining().len() > 0 && *d == old(self).remaining()[0]
                    && final(self).remaining() == old(self).remaining().drop_first(),
                None => old(self).remaining().len() == 0 && final(self).remaining().len() == 0,
            },
    {
        if self.next < self.nodes.len() {
            let d = self.nodes[self.next];
            self.next = self.next + 1;
            proof {
                assert(final(self).remaining() =~= old(self).remaining().drop_first());
            }
            Some(d)
        } else {
            None
        }
    }
}

/// Append the code nodes of `datum` (in context `ctx`) to `out`, in
/// pre-order.
fn collect_code<'a, 't>(datum: &'a Datum<'t>, ctx: Ctx, out: &mut Vec<&'a Datum<'t>>)
    ensures
        deref_seq(final(out)@) == deref_seq(old(out)@) + code_seq(*datum, ctx),
    decreases datum,
{
    let ghost base = deref_seq(out@);
    let r = node_region(datum, ctx);
    if r.is_prunable() {
        assert(code_seq(*datum, ctx) =~= Seq::<Datum<'t>>::empty());
        assert(deref_seq(out@) =~= base + code_seq(*datum, ctx));
        return;
    }
    if let Region::Code = r {
        out.push(datum);
    }
    let ghost head = deref_seq(out@);
    assert(head =~= base + if r is Code {
        seq![*datum]
    } else {
        Seq::<Datum<'t>>::empty()
    });
    match &datum.kind {
        DatumKind::List { items, tail, .. } => {
            let mut i: usize = 0;
            while i < items.len()
                invariant
                    i <= items.len(),
                    deref_seq(out@) == head + items_code(items@.take(i as int), ctx),
                decreases items.len() - i,
            {
                proof {
                    assert(decreases_to!(*datum => items@[i as int]));
                    assert(items@.take(i + 1).drop_last() =~= items@.take(i as int));
                }
                collect_code(&items[i], ctx, out);
                i = i + 1;
            }
            assert(items@.take(items.len() as int) =~= items@);
            match tail {
                Some(t) => collect_code(&**t, ctx, out),
                None => {},
            }
        },
        DatumKind::Prefixed { prefix, inner, arg, .. } => {
            if let Some(a) = arg {
                collect_code(&**a, Ctx::data(), out);
            }
            collect_code(&**inner, inner_ctx(*prefix, ctx), out);
        },
        DatumKind::HashLiteral { inner: Some(i), .. } => {
            collect_code(&**i, Ctx::data(), out);
        },
        DatumKind::Label { inner, .. } => {
            collect_code(&**inner, ctx, out);
        },
        _ => {},
    }
    assert(deref_seq(out@) =~= base + code_seq(*datum, ctx));
}

/// Iterate the [`Class::Code`] nodes of `data` in pre-order — the
/// fixed-policy counterpart to [`walk`]: sealed data is always pruned and
/// porous quasiquote templates descended, so nested unquoted code is reached
/// but quoted data is never yielded.
pub fn code_nodes<'a, 't>(data: &'a [Datum<'t>]) -> (it: CodeNodes<'a, 't>)
    ensures
        it.wf(),
        it.remaining() == forest_code(data@),
{
    let mut nodes: Vec<&'a Datum<'t>> = Vec::new();
    let mut i: usize = 0;
    while i < data.len()
        invariant
            i <= data.len(),
            deref_seq(nodes@) == items_code(data@.take(i as int), top_ctx()),
        decreases data.len() - i,
    {
        proof {
            assert(data@.take(i + 1).drop_last() =~= data@.take(i as int));
        }
        collect_code(&data[i], Ctx::top(), &mut nodes);
        i = i + 1;
    }
    assert(data@.take(data.len() as int) =~= data@);
    let it = CodeNodes { nodes, next: 0 };
    assert(it.remaining() =~= deref_seq(it.nodes@));
    it
}

/// A hard quote seals: the code nodes of a quoted form are the form alone —
/// nothing inside it, not even an unquote, is ever code.
pub proof fn lemma_quote_seals<'t>(q: Datum<'t>)
    requires
        q.kind matches DatumKind::Prefixed { prefix: Prefix::Quote, arg: None, .. },
    ensures
        forest_code(seq![q]) == seq![q],
{
    match q.kind {
        DatumKind::Prefixed { prefix, inner, arg, .. } => {
            assert(spec_inner_ctx(prefix, top_ctx()) == data_ctx());
            assert(code_seq(*inner, data_ctx()) =~= Seq::<Datum<'t>>::empty());
            assert(spec_node_region(q, top_ctx()) == Region::Code);
        },
        _ => {},
    }
    assert(seq![q].drop_last() =~= Seq::<Datum<'t>>::empty());
    assert(items_code(Seq::<Datum<'t>>::empty(), top_ctx()) =~= Seq::<Datum<'t>>::empty());
    assert(code_seq(q, top_ctx()) =~= seq![q]);
}

/// Whether `prefix` is context-transparent: the code references `#'x`, `@x`,
/// Janet's `;x`, the anonymous function `#(…)`, and the wrappers metadata,
/// `@` mutables and feature/reader conditionals.
pub open spec fn transparent(prefix: Prefix) -> bool {
    match prefix {
        Prefix::VarQuote | Prefix::FunctionQuote | Prefix::Deref | Prefix::Splice | Prefix::HashFn
        | Prefix::Meta | Prefix::Mutable | Prefix::FeatureConditional { .. }
        | Prefix::ReaderConditional { .. } => true,
        _ => false,
    }
}

/// Every datum in a sealed context is sealed, so it holds no code.
proof fn lemma_sealed_has_no_code<'t>(d: Datum<'t>, ctx: Ctx)
    requires
        ctx.hard_quote,
    ensures
        code_seq(d, ctx) == Seq::<Datum<'t>>::empty(),
{
    assert(spec_node_region(d, ctx) is SealedData);
}

/// A context-transparent prefix's inner datum sits in the prefix's own
/// context: it has the region the prefix has, and the code nodes of the
/// prefixed form are the form itself where it is code, then the code nodes
/// of its inner datum as if it stood in the form's place. So at top level
/// the body of `#(…)` is code, and inside a quasiquote template it is data.
pub proof fn lemma_transparent_prefix<'t>(q: Datum<'t>, ctx: Ctx)
    requires
        q.kind matches DatumKind::Prefixed { prefix, arg: None, .. } && transparent(prefix),
    ensures
        q.kind matches DatumKind::Prefixed { inner, .. } && {
            &&& spec_node_region(*inner, spec_inner_ctx(q.kind->prefix, ctx)) == spec_node_region(
                *inner,
                ctx,
            )
            &&& code_seq(q, ctx) == (if ctx.spec_region() is Code {
                seq![q]
            } else {
                Seq::empty()
            }) + code_seq(*inner, ctx)
        },
{
    match q.kind {
        DatumKind::Prefixed { prefix, inner, arg, .. } => {
            assert(spec_inner_ctx(prefix, ctx) == ctx);
            assert(spec_node_region(q, ctx) == ctx.spec_region());
            if ctx.hard_quote {
                lemma_sealed_has_no_code(*inner, ctx);
                assert(code_seq(q, ctx) =~= Seq::<Datum<'t>>::empty());
            } else {
                assert(Seq::<Datum<'t>>::empty() + code_seq(*inner, ctx) =~= code_seq(*inner, ctx));
            }
        },
        _ => {},
    }
}

/// What each reader macro makes of the region its inner datum sits in:
/// `quote` and discarded content are sealed data wherever they stand;
/// `#.` is code even inside a quote; a quasiquote outside any quote is a
/// porous template; an unquote at depth one steps back to code; and an
/// unquote undoes the quasiquote around it.
pub proof fn lemma_prefix_regions(ctx: Ctx)
    ensures
        spec_inner_ctx(Prefix::Quote, ctx).spec_region() == Region::SealedData,
        spec_inner_ctx(Prefix::Discard, ctx).spec_region() == Region::SealedData,
        spec_inner_ctx(Prefix::ReadEval, ctx).spec_region() == Region::Code,
        !ctx.hard_quote ==> spec_inner_ctx(Prefix::Quasiquote, ctx).spec_region() == Region::PorousData,
        !ctx.hard_quote && ctx.qq == 1 ==> spec_inner_ctx(Prefix::Unquote, ctx).spec_region()
            == Region::Code,
        !ctx.hard_quote && ctx.qq == 1 ==> spec_inner_ctx(Prefix::UnquoteSplicing, ctx).spec_region()
            == Region::Code,
        ctx.qq < u32::MAX ==> spec_inner_ctx(Prefix::Unquote, spec_inner_ctx(Prefix::Quasiquote, ctx))
            == ctx,
        ctx.qq < u32::MAX ==> spec_inner_ctx(
            Prefix::UnquoteSplicing,
            spec_inner_ctx(Prefix::Quasiquote, ctx),
        ) == ctx,
{
}

/// At top level, the code nodes of an anonymous function `#(…)` are the
/// form, then every code node of its body: the body is code, not data.
pub proof fn lemma_hash_fn_body_is_code<'t>(q: Datum<'t>)
    requires
        q.kind matches DatumKind::Prefixed { prefix: Prefix::HashFn, arg: None, .. },
    ensures
        q.kind matches DatumKind::Prefixed { inner, .. } && forest_code(seq![q]) == seq![q]
            + forest_code(seq![*inner]),
{
    lemma_transparent_prefix(q, top_ctx());
    match q.kind {
        DatumKind::Prefixed { inner, .. } => {
            assert(seq![q].drop_last() =~= Seq::<Datum<'t>>::empty());
            assert(seq![*inner].drop_last() =~= Seq::<Datum<'t>>::empty());
            assert(items_code(Seq::<Datum<'t>>::empty(), top_ctx()) =~= Seq::<Datum<'t>>::empty());
            assert(forest_code(seq![q]) =~= code_seq(q, top_ctx()));
            assert(forest_code(seq![*inner]) =~= code_seq(*inner, top_ctx()));
        },
        _ => {},
    }
}

} // verus!
