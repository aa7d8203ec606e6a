//! Drawings of the graph and its overview.

use travsr_tools::global::Repo;
use travsr_tools::graph::{
    edge_kind_str, node_json_id, node_json_label, WalkRequest, MAX_GRAPH_JSON_NODES,
};
use travsr_tools::graph_json::{
    get_graph_json, get_graph_json_global, get_graph_json_raw, GraphJsonParams,
};
use travsr_tools::overview::{overview_graph, overview_merged};
use travsr_tools::store::{
    Edge, EdgeKind, ExactLookup, NameSearch, Node, Step, Steps, Store,
};

fn node(id: u64, path: &str, sig: &str, kind: &str) -> Node {
    Node {
        id,
        kind: kind.to_string(),
        signature: sig.to_string(),
        path: path.to_string(),
        corpus: "test".to_string(),
        language: "typescript".to_string(),
        package: String::new(),
        line: None,
        end_line: None,
        is_test: false,
        is_noise: false,
        token_cost: 10,
    }
}

/// The steps that follow edges; nothing is walked behind a containment.
fn record_steps(store: &mut Store) {
    for n in &store.nodes {
        for callers in [false, true] {
            let steps: Vec<Step> = store
                .edges
                .iter()
                .filter(|e| if callers { e.dst == n.id } else { e.src == n.id })
                .map(|e| Step {
                    kind: e.kind,
                    next: if callers { e.src } else { e.dst },
                    expand: e.kind != EdgeKind::DefinesBinding,
                })
                .collect();
            for first in [false, true] {
                store.steps.push(Steps { from: n.id, callers, first, steps: steps.clone() });
            }
        }
    }
}

fn make(nodes: Vec<Node>, edges: &[(u64, u64, EdgeKind)], terms: &[&str]) -> Store {
    let mut store = Store::new();
    for t in terms {
        let hits: Vec<Node> = nodes
            .iter()
            .filter(|n| n.signature.contains(t) || n.path.contains(t))
            .cloned()
            .collect();
        store.name_searches.push(NameSearch { term: t.to_string(), hits: Some(hits) });
        store.exact_lookups.push(ExactLookup {
            signature: t.to_string(),
            path: None,
            hits: nodes.iter().filter(|n| n.signature == *t).cloned().collect(),
        });
    }
    store.edges = edges.iter().map(|(src, dst, kind)| Edge { src: *src, dst: *dst, kind: *kind }).collect();
    store.nodes = nodes;
    record_steps(&mut store);
    store
}

fn params<'a>(query: &'a str, direction: &'a str, depth: u8, kind: &'a str, budget: usize) -> GraphJsonParams<'a> {
    GraphJsonParams {
        query,
        direction,
        depth,
        kind_filter: kind,
        token_budget: budget,
        mode: "",
        path_prefix: "",
    }
}

fn overview_params<'a>(mode: &'a str, path_prefix: &'a str) -> GraphJsonParams<'a> {
    GraphJsonParams {
        query: "",
        direction: "both",
        depth: 2,
        kind_filter: "",
        token_budget: 0,
        mode,
        path_prefix,
    }
}

#[test]
fn get_graph_json_includes_line_for_symbol_nodes() {
    let mut sym = node(1, "src/foo.ts", "fn:bar", "function");
    sym.line = Some(42);
    let file = node(2, "src/foo.ts", "file", "file");
    let store = make(vec![sym, file], &[], &["fn:bar", "src/foo.ts"]);
    let json = get_graph_json(&store, &params("fn:bar", "both", 1, "", 0), None);
    assert!(
        json.contains("\"line\":42"),
        "symbol node must carry line in JSON: {json}"
    );
    assert!(
        json.contains("\"coverage\""),
        "coverage envelope missing: {json}"
    );
    let file_json = get_graph_json(&store, &params("src/foo.ts", "both", 1, "file", 0), None);
    assert!(
        file_json.contains("\"line\":null"),
        "file node must have null line in JSON: {file_json}"
    );
}

#[test]
fn get_graph_json_token_budget_truncates() {
    let mut nodes = vec![node(1, "src/seed.ts", "fn:seed", "function")];
    let mut edges = Vec::new();
    for i in 0..20u64 {
        nodes.push(node(i + 2, &format!("src/dep{i}.ts"), &format!("fn:dep{i}"), "function"));
        edges.push((1, i + 2, EdgeKind::RefCall));
    }
    let store = make(nodes, &edges, &["fn:seed"]);
    let unbounded = get_graph_json(&store, &params("fn:seed", "deps", 2, "", 0), None);
    assert!(!unbounded.contains("truncated_by_budget"));
    let capped = get_graph_json(&store, &params("fn:seed", "deps", 2, "", 30), None);
    assert!(
        capped.contains("\"truncated_by_budget\":true"),
        "tiny budget must truncate: {capped}"
    );
    assert!(
        capped.contains("fn:seed"),
        "seed must survive any budget: {capped}"
    );
    assert!(capped.len() < unbounded.len());
}

fn make_file_graph_store() -> Store {
    let fa = node(1, "pkg/a/mod.ts", "pkg/a/mod.ts", "file");
    let fb = node(2, "test/b/util.ts", "test/b/util.ts", "file");
    let fc = node(3, "pkg/a/helper.ts", "pkg/a/helper.ts", "file");
    let imp = node(4, "test/b/util.ts", "import:b", "import");
    let mut store = make(
        vec![fa, fb, fc, imp],
        &[(1, 4, EdgeKind::Depends), (4, 2, EdgeKind::ResolvesTo)],
        &[],
    );
    store.dep_pairs.push(("pkg/a/mod.ts".to_string(), "test/b/util.ts".to_string()));
    store
}

#[test]
fn overview_graph_repo_level_groups_by_pkg() {
    let store = make_file_graph_store();
    let raw = get_graph_json(&store, &overview_params("overview", ""), None);
    let v: serde_json::Value = serde_json::from_str(&raw).unwrap();

    assert_eq!(v["mode"], "overview", "mode field must be 'overview'");

    let nodes = v["nodes"].as_array().unwrap();
    let ids: Vec<&str> = nodes.iter().map(|n| n["id"].as_str().unwrap()).collect();
    assert!(ids.contains(&"pkg:pkg"), "must have 'pkg' package: {ids:?}");
    assert!(
        ids.contains(&"pkg:test"),
        "must have 'test' package: {ids:?}"
    );

    let pkg_pkg = nodes.iter().find(|n| n["id"] == "pkg:pkg").unwrap();
    assert_eq!(pkg_pkg["file_count"], 2, "'pkg' should have 2 files");

    let edges = v["edges"].as_array().unwrap();
    let cross = edges
        .iter()
        .find(|e| e["source"] == "pkg:pkg" && e["target"] == "pkg:test");
    assert!(
        cross.is_some(),
        "must have cross-package edge pkg → test: {edges:?}"
    );
    assert!(cross.unwrap()["count"].as_u64().unwrap() >= 1);
}

#[test]
fn overview_graph_splits_monorepo_into_components() {
    let mut nodes = Vec::new();
    for (i, f) in ["a", "b", "c"].iter().enumerate() {
        let i = i as u64 * 2;
        for (k, name) in ["core", "mcp"].iter().enumerate() {
            let p = format!("crates/travsr-{name}/src/{f}.rs");
            nodes.push(node(i + k as u64 + 1, &p, &p, "file"));
        }
    }
    let mut store = make(nodes, &[(2, 1, EdgeKind::RefCall)], &[]);
    store.dep_pairs.push((
        "crates/travsr-mcp/src/a.rs".to_string(),
        "crates/travsr-core/src/a.rs".to_string(),
    ));

    let raw = get_graph_json(&store, &overview_params("overview", ""), None);
    let v: serde_json::Value = serde_json::from_str(&raw).unwrap();
    let nodes = v["nodes"].as_array().unwrap();
    let ids: Vec<&str> = nodes.iter().map(|n| n["id"].as_str().unwrap()).collect();
    assert!(
        ids.contains(&"pkg:crates/travsr-core") && ids.contains(&"pkg:crates/travsr-mcp"),
        "monorepo must split into crate-level components: {ids:?}"
    );
    assert!(
        !ids.contains(&"pkg:crates"),
        "must not collapse to a single 'crates' tile: {ids:?}"
    );

    let core = nodes
        .iter()
        .find(|n| n["id"] == "pkg:crates/travsr-core")
        .unwrap();
    assert_eq!(core["dependents"], 1, "core is depended upon by mcp");

    let edges = v["edges"].as_array().unwrap();
    assert!(
        edges.iter().any(|e| e["source"] == "pkg:crates/travsr-mcp"
            && e["target"] == "pkg:crates/travsr-core"),
        "cross-component edge mcp -> core must be present: {edges:?}"
    );
}

#[test]
fn overview_graph_package_drill_emits_files_and_ghost() {
    let store = make_file_graph_store();
    let raw = get_graph_json(&store, &overview_params("overview", "pkg/a/"), None);
    let v: serde_json::Value = serde_json::from_str(&raw).unwrap();

    assert_eq!(v["mode"], "prefix");

    let nodes = v["nodes"].as_array().unwrap();
    let ids: Vec<&str> = nodes.iter().map(|n| n["id"].as_str().unwrap()).collect();

    assert!(
        ids.contains(&"file:pkg/a/mod.ts"),
        "missing mod.ts: {ids:?}"
    );
    assert!(
        ids.contains(&"file:pkg/a/helper.ts"),
        "missing helper.ts: {ids:?}"
    );

    assert!(
        ids.contains(&"pkg:test"),
        "missing ghost port pkg:test: {ids:?}"
    );
    let ghost = nodes.iter().find(|n| n["id"] == "pkg:test").unwrap();
    assert_eq!(ghost["ghost"], true, "external package must be ghost");

    let edges = v["edges"].as_array().unwrap();
    let cross = edges
        .iter()
        .find(|e| e["source"] == "file:pkg/a/mod.ts" && e["target"] == "pkg:test");
    assert!(cross.is_some(), "must have cross-boundary edge: {edges:?}");
}

#[test]
fn package_drill_graph_intra_prefix_edge_emitted() {
    let fa = node(1, "pkg/a/mod.ts", "pkg/a/mod.ts", "file");
    let fb = node(2, "pkg/a/util.ts", "pkg/a/util.ts", "file");
    let imp = node(3, "pkg/a/util.ts", "import:u", "import");
    let mut store = make(
        vec![fa, fb, imp],
        &[(1, 3, EdgeKind::Depends), (3, 2, EdgeKind::ResolvesTo)],
        &[],
    );
    store.dep_pairs.push(("pkg/a/mod.ts".to_string(), "pkg/a/util.ts".to_string()));

    let raw = get_graph_json(&store, &overview_params("overview", "pkg/a/"), None);
    let v: serde_json::Value = serde_json::from_str(&raw).unwrap();
    let edges = v["edges"].as_array().unwrap();
    let intra = edges
        .iter()
        .find(|e| e["source"] == "file:pkg/a/mod.ts" && e["target"] == "file:pkg/a/util.ts");
    assert!(
        intra.is_some(),
        "intra-prefix edge must be emitted: {edges:?}"
    );
}

#[test]
fn overview_graph_rejects_unknown_mode() {
    let raw = get_graph_json(&Store::new(), &overview_params("badmode", ""), None);
    assert_eq!(raw, "{}", "unknown mode must return empty object");
}

#[test]
fn overview_graph_rejects_path_traversal_prefix() {
    let raw = get_graph_json(&Store::new(), &overview_params("overview", "../etc/passwd"), None);
    assert_eq!(raw, "{}", "path traversal prefix must be rejected");
}

#[test]
fn an_overview_of_several_repositories_has_each_tile_once() {
    let repo = |name: &str| Repo {
        name: name.to_string(),
        live: true,
        store: Some(make_file_graph_store()),
        head: None,
    };
    let repos = vec![repo("one"), repo("two")];
    let raw = overview_merged(&repos, None, "");
    let v: serde_json::Value = serde_json::from_str(&raw).unwrap();
    let tiles = v["nodes"].as_array().unwrap();
    assert_eq!(tiles.iter().filter(|n| n["id"] == "pkg:pkg").count(), 1, "got: {raw}");
    let same = overview_merged(&repos, Some("one"), "");
    let one: serde_json::Value = serde_json::from_str(&same).unwrap();
    assert_eq!(one["nodes"], v["nodes"]);
    assert_eq!(overview_graph(&make_file_graph_store(), ""), same);
}

#[test]
fn get_graph_json_stops_at_containment_edges() {
    let mut file = node(1, "src/service.ts", "file", "file");
    file.corpus = String::new();
    let class = node(2, "src/service.ts", "class:PaymentService", "class");
    let sibling = node(3, "src/service.ts", "class:UnrelatedHelper", "class");
    let caller = node(4, "src/controller.ts", "fn:processPayment", "function");
    let store = make(
        vec![file, class, sibling, caller],
        &[
            (1, 2, EdgeKind::DefinesBinding),
            (1, 3, EdgeKind::DefinesBinding),
            (4, 2, EdgeKind::RefCall),
        ],
        &["class:PaymentService"],
    );
    let raw = get_graph_json(&store, &params("class:PaymentService", "callers", 2, "", 0), None);
    let v: serde_json::Value = serde_json::from_str(&raw).unwrap();
    let nodes = v["nodes"].as_array().unwrap();
    let ids: Vec<&str> = nodes.iter().map(|n| n["id"].as_str().unwrap()).collect();

    assert!(ids.contains(&"src/service.ts:class:PaymentService"));
    assert!(ids.contains(&"src/controller.ts:fn:processPayment"));
    assert!(ids.contains(&"src/service.ts"));
    assert!(!ids.contains(&"src/service.ts:class:UnrelatedHelper"));
}

#[test]
fn get_graph_json_and_graph_query_smoke_test() {
    let seed = node(1, "src/seed.ts", "fn:seed", "function");
    let dep = node(2, "src/dep.ts", "fn:dep", "function");
    let store = make(vec![seed, dep], &[(1, 2, EdgeKind::RefCall)], &["fn:seed"]);
    let raw = get_graph_json(&store, &params("fn:seed", "deps", 2, "", 0), None);
    let v: serde_json::Value = serde_json::from_str(&raw).unwrap();
    let ids: std::collections::HashSet<&str> =
        v["nodes"].as_array().unwrap().iter().map(|n| n["id"].as_str().unwrap()).collect();
    let expected: std::collections::HashSet<&str> =
        ["src/seed.ts:fn:seed", "src/dep.ts:fn:dep"].into_iter().collect();
    assert_eq!(ids, expected, "Nodes must match conformantly");
    let edges = v["edges"].as_array().unwrap();
    assert_eq!(edges.len(), 1, "Edges must match conformantly");
    assert_eq!(edges[0]["source"], "src/seed.ts:fn:seed");
    assert_eq!(edges[0]["target"], "src/dep.ts:fn:dep");
}

fn with_meta(mut store: Store, pairs: &[(&str, &str)]) -> Store {
    for (k, v) in pairs {
        store.meta.push((k.to_string(), v.to_string()));
    }
    store
}

fn alpha() -> Store {
    let mut n = node(1, "src/a.ts", "fn:alpha", "function");
    n.line = Some(1);
    n.end_line = Some(3);
    make(vec![n], &[], &["alpha"])
}

#[test]
fn get_graph_json_emits_signals_when_stale() {
    let store = with_meta(
        alpha(),
        &[("last_commit", "abc"), ("phase_b_commit", "abc"), ("phase_b_dirty", "1")],
    );
    let raw = get_graph_json(&store, &params("alpha", "both", 2, "", 0), None);
    let parsed: serde_json::Value = serde_json::from_str(&raw).unwrap();
    let signals = parsed["signals"].as_array().expect("signals array");
    assert!(
        signals.iter().any(|s| s
            .as_str()
            .unwrap_or("")
            .contains("call-graph edges degraded")),
        "graph JSON must carry the degraded signal; got: {raw}"
    );
}

#[test]
fn get_graph_json_no_signals_when_complete() {
    let store = with_meta(alpha(), &[("last_commit", "abc"), ("phase_b_commit", "abc")]);
    let raw = get_graph_json(&store, &params("alpha", "both", 2, "", 0), None);
    let parsed: serde_json::Value = serde_json::from_str(&raw).unwrap();
    assert!(
        parsed.get("signals").is_none(),
        "complete graph must not emit signals; got: {raw}"
    );
}

fn root_count(raw: &str) -> usize {
    let parsed: serde_json::Value = serde_json::from_str(raw).unwrap();
    parsed["nodes"]
        .as_array()
        .unwrap()
        .iter()
        .filter(|n| n["root"].as_bool() == Some(true))
        .count()
}

fn drawn(store: &Store, query: &str) -> String {
    get_graph_json(store, &params(query, "both", 1, "", 0), None)
}

#[test]
fn get_graph_json_bare_name_resolves_single_root() {
    let exact = node(1, "src/docs.ts", "fn:docs_section", "function");
    let cousin = node(2, "src/build.ts", "fn:build_docs_section", "function");
    let helper = node(3, "src/help.ts", "fn:docs_section_helper", "function");
    let store = make(vec![exact, cousin, helper], &[], &["docs_section"]);
    assert!(
        store.search_nodes_by_name("docs_section").unwrap().len() >= 3,
        "substring search must surface all candidates"
    );
    let raw = drawn(&store, "docs_section");
    assert_eq!(root_count(&raw), 1, "exactly one root expected; got: {raw}");
    assert!(
        !raw.contains("build_docs_section"),
        "unconnected substring cousin must not appear; got: {raw}"
    );
}

#[test]
fn get_graph_json_signature_query_single_root() {
    let exact = node(1, "src/docs.ts", "fn:docs_section", "function");
    let cousin = node(2, "src/build.ts", "fn:build_docs_section", "function");
    let store = make(vec![exact, cousin], &[], &["fn:docs_section"]);
    let raw = drawn(&store, "fn:docs_section");
    assert_eq!(root_count(&raw), 1, "exactly one root expected; got: {raw}");
}

#[test]
fn get_graph_json_flags_ambiguous_definitions() {
    let store = make(
        vec![
            node(1, "src/a.ts", "fn:overloaded", "function"),
            node(2, "src/b.ts", "fn:overloaded", "function"),
        ],
        &[],
        &["fn:overloaded"],
    );
    let raw = drawn(&store, "fn:overloaded");
    let v: serde_json::Value = serde_json::from_str(&raw).unwrap();
    assert_eq!(v["ambiguous"], true, "must flag ambiguity; got: {raw}");
    let cands = v["candidates"].as_array().expect("candidates array");
    assert_eq!(cands.len(), 2);
    assert!(cands.iter().all(|c| c["signature"] == "fn:overloaded"));
}

#[test]
fn get_graph_json_no_ambiguous_flag_when_unique() {
    let store = make(vec![node(1, "src/a.ts", "fn:solo", "function")], &[], &["fn:solo"]);
    let raw = drawn(&store, "fn:solo");
    let v: serde_json::Value = serde_json::from_str(&raw).unwrap();
    assert!(
        v.get("ambiguous").is_none(),
        "unique query must not flag ambiguity; got: {raw}"
    );
    assert!(v.get("candidates").is_none());
}

#[test]
fn get_graph_json_substring_fallback_when_no_exact_match() {
    let a = node(1, "src/a.ts", "fn:alpha_beta", "function");
    let b = node(2, "src/b.ts", "fn:alpha_gamma", "function");
    let store = make(vec![a, b], &[], &["alpha"]);
    let raw = drawn(&store, "alpha");
    assert_eq!(
        root_count(&raw),
        2,
        "fuzzy fallback must keep both roots; got: {raw}"
    );
}

#[test]
fn get_graph_json_same_name_overloads_stay_multi_root() {
    let a = node(1, "src/a.ts", "fn:charge", "function");
    let b = node(2, "src/b.ts", "method:Billing.charge", "method");
    let noise = node(3, "src/c.ts", "fn:supercharged", "function");
    let store = make(vec![a, b, noise], &[], &["charge"]);
    let raw = drawn(&store, "charge");
    assert_eq!(
        root_count(&raw),
        2,
        "both same-name definitions stay roots, noise dropped; got: {raw}"
    );
    assert!(
        !raw.contains("supercharged"),
        "substring noise must be dropped; got: {raw}"
    );
}

#[test]
fn get_graph_json_file_mode_keeps_substring_seeds() {
    let a = node(1, "src/pay/a.ts", "src/pay/a.ts", "file");
    let b = node(2, "src/pay/b.ts", "src/pay/b.ts", "file");
    let store = make(vec![a, b], &[], &["src/pay"]);
    let raw = get_graph_json(&store, &params("src/pay", "both", 1, "file", 0), None);
    assert_eq!(
        root_count(&raw),
        2,
        "file mode substring seeding must be unchanged; got: {raw}"
    );
}

#[test]
fn scores_fall_with_the_distance() {
    let nodes: Vec<Node> =
        (1..=5).map(|i| node(i, &format!("src/{i}.ts"), &format!("fn:n{i}"), "function")).collect();
    let edges: Vec<(u64, u64, EdgeKind)> =
        (1..5).map(|i| (i, i + 1, EdgeKind::RefCall)).collect();
    let store = make(nodes, &edges, &["fn:n1"]);
    let raw = get_graph_json(&store, &params("fn:n1", "deps", 9, "", 0), None);
    let v: serde_json::Value = serde_json::from_str(&raw).unwrap();
    let scores: Vec<f64> =
        v["nodes"].as_array().unwrap().iter().map(|n| n["score"].as_f64().unwrap()).collect();
    assert_eq!(scores, vec![1.0, 0.7, 0.49, 0.343, 0.24]);
    assert_eq!(v["coverage"]["language"], "typescript");
    assert_eq!(v["coverage"]["semantic"], false);
    assert!(v["coverage"]["phase_b_commit"].is_null());
}

fn drawn_nodes(raw: &str) -> Vec<serde_json::Value> {
    let v: serde_json::Value = serde_json::from_str(raw).unwrap();
    v["nodes"].as_array().unwrap().clone()
}

#[test]
fn scores_fall_on_behind_the_fourth_step() {
    let nodes: Vec<Node> =
        (1..=25).map(|i| node(i, &format!("src/{i}.ts"), &format!("fn:n{i}"), "function")).collect();
    let edges: Vec<(u64, u64, EdgeKind)> =
        (1..25).map(|i| (i, i + 1, EdgeKind::RefCall)).collect();
    let store = make(nodes, &edges, &["fn:n1"]);
    let q = WalkRequest { direction: "deps", depth: 255, kind: "", budget: 0 };
    let raw = get_graph_json_raw(&store, "fn:n1", &q, None);
    let scores: Vec<f64> =
        drawn_nodes(&raw).iter().map(|n| n["score"].as_f64().unwrap()).collect();
    let want: Vec<f64> =
        (0..25).map(|hop| (0.7_f64.powi(hop) * 1000.0).round() / 1000.0).collect();
    assert_eq!(scores, want);
    assert_eq!(scores[5], 0.168);
    assert_eq!(scores[21], 0.001);
    assert_eq!(scores[22], 0.0);
}

#[test]
fn a_drawing_has_a_bounded_number_of_nodes() {
    let count = MAX_GRAPH_JSON_NODES as u64 + 1;
    let nodes: Vec<Node> =
        (1..=count).map(|i| node(i, &format!("src/pay/{i}.ts"), &format!("src/pay/{i}.ts"), "file")).collect();
    let store = make(nodes, &[], &["src/pay"]);
    let q = WalkRequest { direction: "both", depth: 1, kind: "file", budget: 0 };
    let raw = get_graph_json_raw(&store, "src/pay", &q, None);
    assert_eq!(drawn_nodes(&raw).len(), 200);
}

#[test]
fn nothing_found_draws_nothing() {
    let store = make(vec![], &[], &["zzz"]);
    assert_eq!(drawn(&store, "zzz"), "{\"nodes\":[],\"edges\":[]}");
}

#[test]
fn a_drawing_over_several_repositories_has_each_node_once() {
    let repo = |name: &str| Repo {
        name: name.to_string(),
        live: true,
        store: Some(alpha()),
        head: None,
    };
    let repos = vec![repo("one"), repo("two")];
    let raw = get_graph_json_global(&repos, None, &params("alpha", "both", 1, "", 0));
    let v: serde_json::Value = serde_json::from_str(&raw).unwrap();
    assert_eq!(v["nodes"].as_array().unwrap().len(), 1, "got: {raw}");
}

#[test]
fn nodes_and_edges_have_names() {
    let mut f = node(1, "src/a.ts", "file", "file");
    assert_eq!(node_json_id(&f), "test:src/a.ts");
    f.corpus = String::new();
    let s = node(2, "src/a.ts", "fn:run", "function");
    assert_eq!(node_json_id(&f), "src/a.ts");
    assert_eq!(node_json_id(&s), "src/a.ts:fn:run");
    assert_eq!(node_json_label(&s), "run");
    assert_ne!(edge_kind_str(EdgeKind::RefCall), edge_kind_str(EdgeKind::Depends));
}

/// Two components, with the given dependencies between their files.
fn two_components(pairs: &[(&str, &str)]) -> Store {
    let paths = ["pkg/a.ts", "pkg/b.ts", "lib/c.ts", "lib/d.ts"];
    let nodes = paths.iter().enumerate().map(|(i, p)| node(i as u64 + 1, p, p, "file")).collect();
    let mut store = make(nodes, &[], &[]);
    store.dep_pairs = pairs.iter().map(|(a, b)| (a.to_string(), b.to_string())).collect();
    store
}

fn links(raw: &str) -> Vec<(String, String, u64)> {
    let v: serde_json::Value = serde_json::from_str(raw).unwrap();
    let text = |e: &serde_json::Value, k: &str| e[k].as_str().unwrap().to_string();
    v["edges"]
        .as_array()
        .unwrap()
        .iter()
        .map(|e| (text(e, "source"), text(e, "target"), e["count"].as_u64().unwrap()))
        .collect()
}

#[test]
fn a_link_counts_the_pairs_that_cross_the_border() {
    let store = two_components(&[
        ("pkg/a.ts", "lib/c.ts"),
        ("pkg/a.ts", "pkg/b.ts"),
        ("pkg/b.ts", "lib/c.ts"),
        ("pkg/b.ts", "../other/x.ts"),
        ("lib/d.ts", "pkg/a.ts"),
        ("pkg/b.ts", "lib/d.ts"),
    ]);
    let raw = overview_graph(&store, "");
    assert_eq!(
        links(&raw),
        vec![
            ("pkg:pkg".to_string(), "pkg:lib".to_string(), 3),
            ("pkg:lib".to_string(), "pkg:pkg".to_string(), 1),
        ]
    );
    let v: serde_json::Value = serde_json::from_str(&raw).unwrap();
    for tile in v["nodes"].as_array().unwrap() {
        assert_eq!(tile["dependents"], 1, "got: {raw}");
    }
}

#[test]
fn the_counts_of_several_repositories_add_up() {
    let repo = |name: &str, pairs: &[(&str, &str)]| Repo {
        name: name.to_string(),
        live: true,
        store: Some(two_components(pairs)),
        head: None,
    };
    let repos = vec![
        repo("one", &[("pkg/a.ts", "lib/c.ts"), ("pkg/b.ts", "lib/c.ts")]),
        repo("two", &[("pkg/a.ts", "lib/d.ts")]),
    ];
    let raw = overview_merged(&repos, None, "");
    assert_eq!(links(&raw), vec![("pkg:pkg".to_string(), "pkg:lib".to_string(), 3)]);
}

#[test]
fn the_links_of_a_directory_lead_to_its_tiles() {
    let store = two_components(&[
        ("pkg/a.ts", "lib/c.ts"),
        ("pkg/a.ts", "lib/d.ts"),
        ("pkg/a.ts", "pkg/b.ts"),
        ("pkg/a.ts", "pkg/b.ts"),
        ("pkg/b.ts", "/usr/x.ts"),
        ("lib/c.ts", "pkg/a.ts"),
    ]);
    let raw = overview_graph(&store, "pkg/");
    let v: serde_json::Value = serde_json::from_str(&raw).unwrap();
    let ids: Vec<&str> =
        v["nodes"].as_array().unwrap().iter().map(|n| n["id"].as_str().unwrap()).collect();
    assert_eq!(ids, vec!["file:pkg/a.ts", "file:pkg/b.ts", "pkg:lib"]);
    let ends: Vec<(&str, &str)> = v["edges"]
        .as_array()
        .unwrap()
        .iter()
        .map(|e| (e["source"].as_str().unwrap(), e["target"].as_str().unwrap()))
        .collect();
    assert_eq!(ends, vec![("file:pkg/a.ts", "pkg:lib"), ("file:pkg/a.ts", "file:pkg/b.ts")]);
}
