//! Uses of a symbol.

use travsr_tools::refs::find_references;
use travsr_tools::store::{Edge, EdgeKind, ExactLookup, NameSearch, Node, Site, Store};

fn node(id: u64, path: &str, language: &str, sig: &str, kind: &str, line: Option<u32>) -> Node {
    Node {
        id,
        kind: kind.to_string(),
        signature: sig.to_string(),
        path: path.to_string(),
        corpus: String::new(),
        language: language.to_string(),
        package: String::new(),
        line,
        end_line: None,
        is_test: false,
        is_noise: false,
        token_cost: 10,
    }
}

/// A store with the uses `(user, used, line)`, in which the terms are searched for.
fn make(nodes: Vec<Node>, uses: &[(u64, u64, u32)], terms: &[&str]) -> Store {
    let mut store = Store::new();
    for t in terms {
        let hits: Vec<Node> = nodes.iter().filter(|n| n.signature.contains(t)).cloned().collect();
        store.name_searches.push(NameSearch { term: t.to_string(), hits: Some(hits) });
        store.exact_lookups.push(ExactLookup {
            signature: t.to_string(),
            path: None,
            hits: nodes.iter().filter(|n| n.signature == *t).cloned().collect(),
        });
    }
    for (user, used, line) in uses {
        let u = nodes.iter().find(|n| n.id == *user).unwrap();
        store.sites.push(Site { target: *used, path: u.path.clone(), line: *line });
        for id in [user, used] {
            let n = nodes.iter().find(|n| n.id == *id).unwrap();
            store.occurrence_languages.push(n.language.clone());
            store.occurrence_files.push(n.path.clone());
        }
    }
    store.nodes = nodes;
    store
}

#[test]
fn find_references_emits_occurrence_sites() {
    let store = make(
        vec![
            node(1, "src/svc.rs", "rust", "fn:charge", "function", Some(4)),
            node(2, "src/svc.rs", "rust", "fn:process", "function", None),
        ],
        &[(2, 1, 9), (2, 1, 10)],
        &["charge"],
    );
    let out = find_references(&store, "charge", None, None);
    assert!(out.contains("resolved: fn:charge"), "header missing: {out}");
    assert!(out.contains("src/svc.rs:9"), "site 9 missing: {out}");
    assert!(out.contains("src/svc.rs:10"), "site 10 missing: {out}");
    assert!(out.contains("2 reference(s)"), "count missing: {out}");
}

#[test]
fn find_references_softens_zero_when_target_file_has_no_occurrences() {
    let store = make(
        vec![
            node(1, "src/covered.rs", "rust", "fn:caller", "function", None),
            node(2, "src/covered.rs", "rust", "fn:callee", "function", None),
            node(3, "src/untouched.rs", "rust", "fn:orphan", "function", Some(3)),
        ],
        &[(1, 2, 11)],
        &["orphan"],
    );
    let out = find_references(&store, "orphan", None, None);
    assert!(
        out.contains("not a definitive zero"),
        "should soften the claim: {out}"
    );
    assert!(
        out.contains("src/untouched.rs"),
        "should name the unanalysed file: {out}"
    );
    assert!(
        !out.contains("has no recorded uses"),
        "must not assert absence: {out}"
    );
}

#[test]
fn find_references_keeps_definitive_zero_when_target_file_is_analyzed() {
    let store = make(
        vec![
            node(1, "src/svc.rs", "rust", "fn:caller", "function", None),
            node(2, "src/svc.rs", "rust", "fn:callee", "function", None),
            node(3, "src/svc.rs", "rust", "fn:unused", "function", Some(20)),
        ],
        &[(1, 2, 5)],
        &["unused"],
    );
    let out = find_references(&store, "unused", None, None);
    assert!(
        out.contains("has no recorded uses"),
        "analysed file should still give a definitive zero: {out}"
    );
    assert!(
        !out.contains("not a definitive zero"),
        "should not soften when the file was analysed: {out}"
    );
}

#[test]
fn find_references_none_has_no_resolution() {
    let store = make(vec![], &[], &["doesnotexist"]);
    let out = find_references(&store, "doesnotexist", None, None);
    assert!(!out.contains("resolved:"), "unexpected resolution: {out}");
    assert!(!out.contains("reference(s)"), "unexpected sites: {out}");
}

#[test]
fn find_references_ambiguous_lists_candidates() {
    let store = make(
        vec![
            node(1, "a.rs", "rust", "fn:charge", "function", Some(1)),
            node(2, "b.rs", "rust", "fn:charge", "function", Some(2)),
        ],
        &[],
        &["charge"],
    );
    let out = find_references(&store, "charge", None, None);
    assert!(
        out.contains("ambiguous"),
        "expected disambiguation list: {out}"
    );
    assert!(
        out.contains("a.rs") && out.contains("b.rs"),
        "both defs listed: {out}"
    );
    let pinned = find_references(&store, "charge", Some("a.rs"), None);
    assert!(
        !pinned.contains("ambiguous"),
        "path hint must disambiguate: {pinned}"
    );
}

#[test]
fn find_references_ignores_import_nodes() {
    let store = make(
        vec![
            node(1, "svc.rs", "rust", "fn:charge", "function", Some(4)),
            node(2, "main.rs", "rust", "use:svc::charge", "import", None),
        ],
        &[],
        &["charge"],
    );
    let out = find_references(&store, "charge", None, None);
    assert!(
        !out.contains("ambiguous"),
        "import node must not create ambiguity: {out}"
    );
    assert!(
        out.contains("resolved: fn:charge"),
        "must resolve to the real fn: {out}"
    );
}

#[test]
fn find_references_path_hint_respects_slash_boundary() {
    let store = make(
        vec![
            node(1, "src/tools.rs", "rust", "fn:charge", "function", Some(1)),
            node(2, "src/mytools.rs", "rust", "fn:charge", "function", Some(2)),
        ],
        &[],
        &["charge"],
    );
    let pinned = find_references(&store, "charge", Some("tools.rs"), None);
    assert!(
        !pinned.contains("ambiguous"),
        "slash-boundary hint must pin exactly one file: {pinned}"
    );
    assert!(
        pinned.contains("src/tools.rs") && !pinned.contains("mytools.rs"),
        "must select src/tools.rs, not src/mytools.rs: {pinned}"
    );
}

#[test]
fn find_references_dotted_qualified_resolves() {
    let store = make(
        vec![
            node(1, "ClassC.swift", "swift", "swift::ClassC.shared", "field", Some(2)),
            node(2, "ClassD.swift", "swift", "swift::ClassD.shared", "field", Some(2)),
            node(3, "Caller.swift", "swift", "fn:useShared", "function", None),
        ],
        &[(3, 1, 7)],
        &["ClassC.shared", "shared"],
    );
    let out = find_references(&store, "ClassC.shared", None, None);
    assert!(
        out.contains("resolved: swift::ClassC.shared"),
        "dotted query must resolve to the qualified node: {out}"
    );
    assert!(out.contains("Caller.swift:7"), "site missing: {out}");
    assert!(
        !out.contains("ClassD.shared"),
        "must not match the other container: {out}"
    );
}

#[test]
fn find_references_dotted_container_suffix_does_not_collide() {
    let store = make(
        vec![node(1, "AppConfig.swift", "swift", "swift::AppConfig.shared", "field", Some(2))],
        &[],
        &["Config.shared", "shared"],
    );
    let out = find_references(&store, "Config.shared", None, None);
    assert!(
        !out.contains("resolved:"),
        "must not resolve to AppConfig.shared via substring collision: {out}"
    );
}

#[test]
fn find_references_dotted_unique_bare_member_resolves() {
    let store = make(
        vec![
            node(1, "ClassC.swift", "swift", "var:shared", "field", Some(2)),
            node(2, "Caller.swift", "swift", "fn:useShared", "function", None),
        ],
        &[(2, 1, 4)],
        &["ClassC.shared", "shared"],
    );
    let out = find_references(&store, "ClassC.shared", None, None);
    assert!(
        out.contains("resolved: var:shared"),
        "unique bare member must resolve: {out}"
    );
    assert!(out.contains("Caller.swift:4"), "site missing: {out}");
}

#[test]
fn find_references_dotted_ambiguous_bare_member_is_none() {
    let store = make(
        vec![
            node(1, "ClassC.swift", "swift", "var:shared", "field", Some(2)),
            node(2, "ClassD.swift", "swift", "var:shared", "field", Some(2)),
        ],
        &[],
        &["ClassC.shared", "shared"],
    );
    let out = find_references(&store, "ClassC.shared", None, None);
    assert!(
        !out.contains("resolved:"),
        "ambiguous bare members must not resolve: {out}"
    );
}

#[test]
fn find_references_falls_back_to_edges_without_sites() {
    let mut store = make(
        vec![
            node(1, "svc.rs", "rust", "fn:charge", "function", None),
            node(2, "caller.rs", "rust", "fn:run", "function", Some(12)),
        ],
        &[],
        &["charge"],
    );
    store.edges.push(Edge { src: 2, dst: 1, kind: EdgeKind::RefCall });
    let out = find_references(&store, "charge", None, None);
    assert!(
        out.contains("caller.rs:12"),
        "fallback caller def missing: {out}"
    );
    assert!(
        out.contains("occurrence lines unavailable"),
        "fallback must be labelled degraded: {out}"
    );
}
