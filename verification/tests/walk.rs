//! Tests of the code-vs-data walker.

use lib::{code_nodes, parse, walk, walk_regions, Class, CodeNodes, Datum, DatumKind, Options, Region, Walk};

/// Every node a code-node iterator yields, in order.
fn drain<'a, 't>(mut it: CodeNodes<'a, 't>) -> Vec<&'a Datum<'t>> {
    let mut out = Vec::new();
    while let Some(d) = it.next() {
        out.push(d);
    }
    out
}

/// Collect `(source-text, class)` for every visited node, descending all.
fn classes<'a>(src: &'a str, opts: &Options) -> Vec<(&'a str, Class)> {
    let parsed = parse(src, opts);
    // Leak-free: borrow the source via spans.
    let mut out = Vec::new();
    walk(&parsed.data, |d, c| {
        out.push((d.span.text(src), c));
        Walk::Descend
    });
    out
}

fn class_of(src: &str, opts: &Options, needle: &str) -> Class {
    classes(src, opts)
        .into_iter()
        .find(|(t, _)| *t == needle)
        .unwrap_or_else(|| panic!("{needle:?} not visited in {src:?}"))
        .1
}

#[test]
fn top_level_and_list_items_are_code() {
    let s = Options::scheme();
    assert_eq!(class_of("(f x)", &s, "(f x)"), Class::Code);
    assert_eq!(class_of("(f x)", &s, "f"), Class::Code);
    assert_eq!(class_of("(f x)", &s, "x"), Class::Code);
}

#[test]
fn quote_makes_inner_data_deep() {
    let s = Options::scheme();
    assert_eq!(class_of("'(a b)", &s, "'(a b)"), Class::Code); // the quote form
    assert_eq!(class_of("'(a b)", &s, "(a b)"), Class::Data);
    assert_eq!(class_of("'(a b)", &s, "a"), Class::Data);
    assert_eq!(class_of("'(a b)", &s, "b"), Class::Data);
}

#[test]
fn quasiquote_unquote_flips_back() {
    let s = Options::scheme();
    // `(a ,b): a is data, b flips back to code.
    assert_eq!(class_of("`(a ,b)", &s, "a"), Class::Data);
    assert_eq!(class_of("`(a ,b)", &s, "b"), Class::Code);
}

#[test]
fn double_unquote_under_double_quasiquote_is_code() {
    let s = Options::scheme();
    // ``(,,c): two quasiquotes, two unquotes -> c is back at depth 0.
    assert_eq!(class_of("``(,,c)", &s, "c"), Class::Code);
}

#[test]
fn unquote_cannot_escape_hard_quote() {
    let s = Options::scheme();
    // '(,b): quote is absolute; the unquote does not reach code.
    assert_eq!(class_of("'(,b)", &s, "b"), Class::Data);
}

#[test]
fn hash_literal_is_data() {
    let s = Options::scheme();
    // #(1 2 3) is a vector literal -> data even at top level.
    assert_eq!(class_of("#(1 2 3)", &s, "#(1 2 3)"), Class::Data);
}

#[test]
fn function_quote_is_code() {
    let c = Options::common_lisp();
    assert_eq!(class_of("#'foo", &c, "foo"), Class::Code);
}

#[test]
fn deref_is_code() {
    let c = Options::clojure();
    assert_eq!(class_of("@x", &c, "x"), Class::Code);
}

#[test]
fn deref_inside_quasiquote_stays_data() {
    // `(f @x): the deref is template data at depth 1; it does not reset the
    // quasiquote depth.
    let c = Options::clojure();
    assert_eq!(class_of("`(f @x)", &c, "x"), Class::Data);
    // ...but an unquote around it flips back to code as usual.
    assert_eq!(class_of("`(f ~@y)", &c, "y"), Class::Code);
}

#[test]
fn function_quote_inside_quote_stays_data() {
    let c = Options::common_lisp();
    assert_eq!(class_of("'(f #'a)", &c, "a"), Class::Data);
}

#[test]
fn read_eval_is_code_even_under_quote() {
    // #. runs at read time — quote cannot inert it.
    let c = Options::common_lisp();
    assert_eq!(class_of("'(a #.(f))", &c, "(f)"), Class::Code);
}

#[test]
fn stop_aborts_the_walk() {
    let s = Options::scheme();
    let src = "(a b) (c d)";
    let parsed = parse(src, &s);
    let mut visited = Vec::new();
    walk(&parsed.data, |d, _| {
        visited.push(d.span.text(src));
        if d.span.text(src) == "b" {
            Walk::Stop
        } else {
            Walk::Descend
        }
    });
    assert!(visited.contains(&"b"));
    // Nothing after the stop point is visited — not even siblings or the
    // next top-level form.
    assert!(!visited.contains(&"(c d)"));
    assert!(!visited.contains(&"c"));
}

/// Collect `(source-text, region)` for every visited node, descending all.
fn regions<'a>(src: &'a str, opts: &Options) -> Vec<(&'a str, Region)> {
    let parsed = parse(src, opts);
    let mut out = Vec::new();
    walk_regions(&parsed.data, |d, r| {
        out.push((d.span.text(src), r));
        Walk::Descend
    });
    out
}

fn region_of(src: &str, opts: &Options, needle: &str) -> Region {
    regions(src, opts)
        .into_iter()
        .find(|(t, _)| *t == needle)
        .unwrap_or_else(|| panic!("{needle:?} not visited in {src:?}"))
        .1
}

#[test]
fn hard_quote_is_sealed_quasiquote_template_is_porous() {
    let s = Options::scheme();
    // A hard quote seals: nothing inside can become code.
    assert_eq!(region_of("'(a b)", &s, "(a b)"), Region::SealedData);
    // A quasiquote template is data, but porous — an unquote can escape it.
    assert_eq!(region_of("`(a ,b)", &s, "(a ,b)"), Region::PorousData);
    // The unquoted form itself is back to code.
    assert_eq!(region_of("`(a ,b)", &s, "b"), Region::Code);
    // Hash literals are sealed regardless of surroundings.
    assert_eq!(region_of("#(1 2 3)", &s, "#(1 2 3)"), Region::SealedData);
}

#[test]
fn only_sealed_data_is_prunable() {
    assert!(Region::SealedData.is_prunable());
    assert!(!Region::PorousData.is_prunable());
    assert!(!Region::Code.is_prunable());
    // The binary bridge collapses both data kinds.
    assert_eq!(Region::SealedData.class(), Class::Data);
    assert_eq!(Region::PorousData.class(), Class::Data);
    assert_eq!(Region::Code.class(), Class::Code);
}

#[test]
fn walk_class_matches_walk_regions_class_for_every_node() {
    // `walk`'s binary `Class` must equal `walk_regions`' `Region::class()`
    // node-for-node and in order. `walk` delegates to `walk_regions` today,
    // so this holds by construction — the test pins the contract so a future
    // reimplementation of either can't silently diverge (downstream tools
    // like cccc-scheme rely on `Region::class()` reproducing `Class` exactly).
    let cases = [
        (Options::scheme(), "(f x)"),
        (Options::scheme(), "'(a b)"),
        (Options::scheme(), "`(a ,b)"),
        (Options::scheme(), "``(,,c)"),
        (Options::scheme(), "'(a ,b)"),
        (Options::scheme(), "#(1 2 3)"),
        (Options::scheme(), "(let ((x 1)) `(v ,x '(w)))"),
        (Options::common_lisp(), "'(f #'a #.(g))"),
        (Options::common_lisp(), "#+sbcl (defun only () 1)"),
    ];
    for (opts, src) in &cases {
        let via_class = classes(src, opts);
        let via_region: Vec<(&str, Class)> = regions(src, opts)
            .into_iter()
            .map(|(t, r)| (t, r.class()))
            .collect();
        assert_eq!(via_class, via_region, "mismatch for {src:?}");
    }
}

#[test]
fn blanket_skip_on_binary_data_drops_quasiquoted_code() {
    // The footgun: pruning on `Class::Data` skips the porous template whole,
    // so the unquoted `(f y)` — real code — is never seen.
    let s = Options::scheme();
    let src = "`(a ,(f y))";
    let parsed = parse(src, &s);
    let mut code_lists = Vec::new();
    walk(&parsed.data, |d, class| {
        if class == Class::Data {
            return Walk::Skip;
        }
        if matches!(d.kind, DatumKind::List { .. }) {
            code_lists.push(d.span.text(src));
        }
        Walk::Descend
    });
    // Bug reproduced: the unquoted call is lost.
    assert!(!code_lists.contains(&"(f y)"));
}

#[test]
fn region_pruning_keeps_quasiquoted_code_but_prunes_sealed() {
    // The safe idiom: prune only prunable regions; descend porous templates.
    let s = Options::scheme();
    let src = "`(a ,(f y) '(b c))";
    let parsed = parse(src, &s);
    let mut code_lists = Vec::new();
    let mut visited = Vec::new();
    walk_regions(&parsed.data, |d, region| {
        visited.push(d.span.text(src));
        if region.is_prunable() {
            return Walk::Skip;
        }
        if region == Region::Code && matches!(d.kind, DatumKind::List { .. }) {
            code_lists.push(d.span.text(src));
        }
        Walk::Descend
    });
    // The unquoted call is reached...
    assert!(code_lists.contains(&"(f y)"));
    // ...while the sealed quoted list is pruned (visited once, not descended).
    assert!(visited.contains(&"(b c)"));
    assert!(!visited.contains(&"b"));
    assert!(!visited.contains(&"c"));
}

/// Every code node `code_nodes` yields, by source text, in order.
fn code_texts<'a>(src: &'a str, opts: &Options) -> Vec<&'a str> {
    let parsed = parse(src, opts);
    drain(code_nodes(&parsed.data)).into_iter().map(|d| d.span.text(src)).collect()
}

#[test]
fn code_nodes_yields_code_preorder_and_prunes_sealed() {
    let s = Options::scheme();
    // The quote *form* `'(a b)` is code (it evaluates to data); its contents
    // are sealed and pruned. Pre-order: list, head, the quote form, tail.
    assert_eq!(
        code_texts("(f '(a b) x)", &s),
        vec!["(f '(a b) x)", "f", "'(a b)", "x"],
    );
}

#[test]
fn code_nodes_descends_porous_to_reach_unquoted_code() {
    let s = Options::scheme();
    let got = code_texts("`(a ,(f y))", &s);
    // The unquoted call and its parts are reached...
    assert!(got.contains(&"(f y)"));
    assert!(got.contains(&"y"));
    // ...but template data at depth 1 (`a`) is not code, so not yielded.
    assert!(!got.contains(&"a"));
}

#[test]
fn code_nodes_is_fused_after_exhaustion() {
    let s = Options::scheme();
    let parsed = parse("(f x)", &s);
    let mut it = code_nodes(&parsed.data);
    while it.next().is_some() {}
    // Drained stays drained — the FusedIterator contract.
    assert!(it.next().is_none());
    assert!(it.next().is_none());
}

#[test]
fn code_nodes_is_lazy_and_short_circuits() {
    let s = Options::scheme();
    let parsed = parse("(a (b (c (d e))))", &s);
    // `find` stops as soon as it hits `b`; the rest is never walked.
    let first_b = drain(code_nodes(&parsed.data)).into_iter().find(|d| d.span.text("(a (b (c (d e))))") == "b");
    assert!(first_b.is_some());
}

#[test]
fn code_nodes_matches_walk_regions_code_classification() {
    // The iterator's fixed prune/descend policy must agree, node-for-node
    // and in order, with descending everything and keeping the code nodes.
    let s = Options::scheme();
    for src in [
        "(f x)",
        "`(a ,(f y) '(b c))",
        "(a '(b c) d)",
        "``(,,c)",
        "'(a ,b)",
        "(let ((x 1)) `(v ,x))",
    ] {
        let parsed = parse(src, &s);
        let via_iter: Vec<&str> = drain(code_nodes(&parsed.data)).into_iter().map(|d| d.span.text(src)).collect();
        let mut via_visitor = Vec::new();
        walk_regions(&parsed.data, |d, r| {
            if r == Region::Code {
                via_visitor.push(d.span.text(src));
            }
            Walk::Descend
        });
        assert_eq!(via_iter, via_visitor, "mismatch for {src:?}");
    }
}

#[test]
fn skip_prunes_quoted_subtree() {
    let s = Options::scheme();
    let src = "(a '(big list) b)";
    let parsed = parse(src, &s);
    let mut visited = Vec::new();
    walk(&parsed.data, |d, class| {
        visited.push(d.span.text(src));
        if class == Class::Data {
            Walk::Skip
        } else {
            Walk::Descend
        }
    });
    // The quoted list is visited once and pruned; its items are not.
    assert!(visited.contains(&"'(big list)"));
    assert!(visited.contains(&"(big list)"));
    assert!(!visited.contains(&"big"));
    assert!(!visited.contains(&"list"));
    // Sibling code is still reached.
    assert!(visited.contains(&"b"));
}
