//! Search, callers and dependencies.

use travsr_tools::callers::{get_callers, get_callers_global};
use travsr_tools::deps::{get_dependencies, get_dependencies_global, DEFAULT_DEPS_TOP_K};
use travsr_tools::global::Repo;
use travsr_tools::search::{
    infer_language_from_query, search_symbol, search_symbol_global, search_symbol_raw,
};
use travsr_tools::store::{
    CallSites, Edge, EdgeKind, FuzzySearch, NameSearch, Node, Store,
};

fn node(id: u64, path: &str, language: &str, sig: &str, kind: &str) -> Node {
    Node {
        id,
        kind: kind.to_string(),
        signature: sig.to_string(),
        path: path.to_string(),
        corpus: String::new(),
        language: language.to_string(),
        package: String::new(),
        line: None,
        end_line: None,
        is_test: false,
        is_noise: false,
        token_cost: 10,
    }
}

fn store_of(nodes: Vec<Node>, edges: Vec<(u64, u64, EdgeKind)>) -> Store {
    let mut store = Store::new();
    store.nodes = nodes;
    store.edges = edges.into_iter().map(|(src, dst, kind)| Edge { src, dst, kind }).collect();
    store
}

fn record_name(store: &mut Store, term: &str) {
    let hits: Vec<Node> = store
        .nodes
        .iter()
        .filter(|n| n.signature.contains(term) || n.path.contains(term))
        .cloned()
        .collect();
    store.name_searches.push(NameSearch { term: term.to_string(), hits: Some(hits) });
}

fn record_fuzzy(store: &mut Store, term: &str, language: Option<&str>, exact: bool, ids: &[u64]) {
    let hits: Vec<Node> = store.nodes.iter().filter(|n| ids.contains(&n.id)).cloned().collect();
    store.fuzzy_searches.push(FuzzySearch {
        term: term.to_string(),
        language: language.map(str::to_string),
        exact,
        hits: Some(hits),
    });
}

fn repo(name: &str, store: Store) -> Repo {
    Repo { name: name.to_string(), live: true, store: Some(store), head: None }
}

#[test]
fn search_symbol_no_match_returns_explicit_message() {
    let mut store = Store::new();
    record_fuzzy(&mut store, "NonExistentSymbol", None, false, &[]);
    let result = search_symbol(&store, "NonExistentSymbol", false);
    assert!(
        result.contains("No symbols matching 'NonExistentSymbol' found in the graph."),
        "no-match should return explicit not-found message, got: {result}"
    );
}

#[test]
fn search_symbol_global_no_match_returns_explicit_message() {
    let mut store = Store::new();
    record_fuzzy(&mut store, "NonExistentSymbol", None, false, &[]);
    let repos = vec![repo("myrepo", store)];
    let result = search_symbol_global(&repos, "NonExistentSymbol", None, false);
    assert!(
        result.contains("No symbols matching 'NonExistentSymbol' found in the graph."),
        "global no-match should return explicit not-found message, got: {result}"
    );
}

fn class_d_store() -> Store {
    let mut store = store_of(
        vec![
            node(1, "src/ClassD.rs", "rust", "struct:ClassD", "struct"),
            node(2, "src/ClassD.rs", "rust", "fn:ClassD::method", "function"),
            node(3, "src/ClassDConfig.rs", "rust", "struct:ClassDConfigurationManager", "struct"),
        ],
        vec![],
    );
    record_fuzzy(&mut store, "ClassD", None, false, &[1, 2, 3]);
    record_fuzzy(&mut store, "ClassD", None, true, &[1, 2]);
    store
}

#[test]
fn search_symbol_global_exact_mode_filters_substrings() {
    let repos = vec![repo("myrepo", class_d_store())];
    let res_all = search_symbol_global(&repos, "ClassD", Some("myrepo"), false);
    assert!(res_all.contains("struct:ClassD"), "got: {res_all}");
    assert!(res_all.contains("fn:ClassD::method"), "got: {res_all}");
    assert!(
        res_all.contains("struct:ClassDConfigurationManager"),
        "global exact=false must keep substring match, got: {res_all}"
    );
    let res_exact = search_symbol_global(&repos, "ClassD", Some("myrepo"), true);
    assert!(res_exact.contains("struct:ClassD"), "got: {res_exact}");
    assert!(res_exact.contains("fn:ClassD::method"), "got: {res_exact}");
    assert!(
        !res_exact.contains("struct:ClassDConfigurationManager"),
        "global exact=true must drop substring match, got: {res_exact}"
    );
}

#[test]
fn search_symbol_exact_mode_filters_substrings() {
    let store = class_d_store();
    let res_all = search_symbol(&store, "ClassD", false);
    assert!(res_all.contains("struct:ClassD"));
    assert!(res_all.contains("fn:ClassD::method"));
    assert!(res_all.contains("struct:ClassDConfigurationManager"));
    let res_exact = search_symbol(&store, "ClassD", true);
    assert!(res_exact.contains("struct:ClassD"));
    assert!(res_exact.contains("fn:ClassD::method"));
    assert!(!res_exact.contains("struct:ClassDConfigurationManager"));
}

#[test]
fn search_symbol_emits_path_line_when_present() {
    let mut n = node(1, "src/foo.rs", "rust", "fn:bar", "function");
    n.line = Some(42);
    let mut store = store_of(vec![n], vec![]);
    record_fuzzy(&mut store, "bar", None, false, &[1]);
    let result = search_symbol(&store, "bar", false);
    assert!(
        result.contains("src/foo.rs:42"),
        "search_symbol must emit path:line, got: {result}"
    );
}

#[test]
fn search_symbol_omits_line_when_absent() {
    let mut store = store_of(vec![node(1, "src/foo.rs", "rust", "fn:baz", "function")], vec![]);
    record_fuzzy(&mut store, "baz", None, false, &[1]);
    let result = search_symbol(&store, "baz", false);
    assert!(
        result.contains("src/foo.rs"),
        "path must still appear: {result}"
    );
    assert!(
        !result.contains("src/foo.rs:"),
        "no colon-suffix when line absent, got: {result}"
    );
}

fn auth_store() -> Store {
    let mut store = store_of(
        vec![
            node(1, "src/auth.rs", "rust", "fn:auth_handler", "function"),
            node(2, "src/auth.ts", "typescript", "fn:authHandler", "function"),
        ],
        vec![],
    );
    record_fuzzy(&mut store, "auth", Some("typescript"), false, &[2]);
    record_fuzzy(&mut store, "auth", None, false, &[1, 2]);
    store
}

#[test]
fn search_symbol_global_filters_by_inferred_language() {
    let result = search_symbol_raw(&auth_store(), "auth", Some("typescript"), false);
    assert!(
        result.contains("src/auth.ts"),
        "expected typescript node: {result}"
    );
    assert!(
        !result.contains("src/auth.rs"),
        "rust node must be filtered out: {result}"
    );
}

#[test]
fn search_symbol_raw_no_filter_returns_both_languages() {
    let result = search_symbol_raw(&auth_store(), "auth", None, false);
    assert!(
        result.contains("auth.rs"),
        "rust node must appear: {result}"
    );
    assert!(
        result.contains("auth.ts"),
        "typescript node must appear: {result}"
    );
}

#[test]
fn the_repository_with_most_matches_comes_first() {
    let mut small = store_of(vec![node(1, "a.rs", "rust", "fn:one", "function")], vec![]);
    record_fuzzy(&mut small, "one", None, false, &[1]);
    let mut large = store_of(
        vec![
            node(1, "b.rs", "rust", "fn:one_b", "function"),
            node(2, "c.rs", "rust", "fn:one_c", "function"),
        ],
        vec![],
    );
    record_fuzzy(&mut large, "one", None, false, &[1, 2]);
    let repos = vec![repo("small", small), repo("large", large)];
    let result = search_symbol_global(&repos, "one", None, false);
    let first = result.find("[large]").expect("large is there");
    let second = result.find("[small]").expect("small is there");
    assert!(first < second, "{result}");
}

#[test]
fn a_query_without_a_language_stays_whole() {
    let (q, lang) = infer_language_from_query("  two   words ");
    assert_eq!(lang, None);
    assert_eq!(q, "  two   words ");
}

#[test]
fn get_callers_emits_path_line_when_present() {
    let callee = node(1, "src/callee.rs", "rust", "fn:callee", "function");
    let mut caller = node(2, "src/caller.rs", "rust", "fn:caller", "function");
    caller.line = Some(10);
    let mut store = store_of(vec![callee, caller], vec![(2, 1, EdgeKind::RefCall)]);
    record_name(&mut store, "fn:callee");
    let result = get_callers(&store, "fn:callee", None);
    assert!(
        result.contains("src/caller.rs:10"),
        "get_callers must emit path:line for caller, got: {result}"
    );
}

#[test]
fn get_callers_expands_to_exact_call_sites() {
    let callee = node(1, "sync.go", "go", "fn:SyncPod", "function");
    let mut caller = node(2, "worker.go", "go", "fn:run", "function");
    caller.line = Some(2);
    caller.end_line = Some(7);
    let mut store = store_of(vec![callee, caller], vec![(2, 1, EdgeKind::RefCall)]);
    record_name(&mut store, "SyncPod");
    store.meta.push(("repo_root".to_string(), "/repo".to_string()));
    store.call_sites.push(CallSites {
        caller: 2,
        callee: "SyncPod".to_string(),
        lines: vec![4, 6],
    });
    let result = get_callers(&store, "SyncPod", None);
    assert!(result.contains("worker.go:4"), "site on line 4: {result}");
    assert!(result.contains("worker.go:6"), "site on line 6: {result}");
    assert!(
        !result.contains("worker.go:5"),
        "decoy SyncPodX must not match: {result}"
    );
    assert_eq!(
        result.matches("worker.go:").count(),
        2,
        "one edge → two call sites: {result}"
    );
}

#[test]
fn get_callers_appends_note_when_phase_b_behind_head() {
    let caller = node(1, "src/a.ts", "typescript", "fn:alpha", "function");
    let callee = node(2, "src/b.ts", "typescript", "fn:beta", "function");
    let mut store = store_of(vec![caller, callee], vec![(1, 2, EdgeKind::RefCall)]);
    record_name(&mut store, "beta");
    store.meta.push(("last_commit".to_string(), "def456".to_string()));
    store.meta.push(("phase_b_commit".to_string(), "abc123".to_string()));
    let result = get_callers(&store, "beta", None);
    assert!(
        result.contains("fn:alpha"),
        "existing edges must still be reported; got: {result}"
    );
    assert!(
        result.contains("call-graph index incomplete"),
        "must append pending note; got: {result}"
    );
}

#[test]
fn an_unknown_repository_gives_an_empty_envelope() {
    let store = store_of(vec![node(1, "a.ts", "typescript", "fn:a", "function")], vec![]);
    let repos = vec![repo("known", store)];
    assert_eq!(
        get_callers_global(&repos, "fn:a", Some("unknown")),
        "<travsr-data></travsr-data>"
    );
    assert_eq!(
        get_dependencies_global(&repos, "a.ts", Some("unknown")),
        "<travsr-data></travsr-data>"
    );
}

#[test]
fn get_dependencies_transitive_reaches_depth_two() {
    let mut store = store_of(
        vec![
            node(1, "a.ts", "typescript", "a.ts", "file"),
            node(2, "b.ts", "typescript", "b.ts", "file"),
            node(3, "c.ts", "typescript", "c.ts", "file"),
        ],
        vec![(1, 2, EdgeKind::Depends), (2, 3, EdgeKind::Depends)],
    );
    record_name(&mut store, "a.ts");
    let direct = get_dependencies(&store, "a.ts", false, 3, None);
    assert!(direct.contains("b.ts"), "direct dep b.ts missing: {direct}");
    assert!(
        !direct.contains("c.ts"),
        "c.ts is transitive, not direct: {direct}"
    );
    let trans = get_dependencies(&store, "a.ts", true, 3, None);
    assert!(trans.contains("b.ts"), "b.ts missing: {trans}");
    assert!(trans.contains("c.ts"), "transitive c.ts missing: {trans}");
}

#[test]
fn get_dependencies_raw_caps_at_top_k_and_emits_footer() {
    let mut nodes = vec![node(100, "src/big.ts", "typescript", "src/big.ts", "file")];
    let mut edges = Vec::new();
    for i in 0..30u64 {
        let name = format!("dep{i}.ts");
        nodes.push(node(i, &name, "typescript", &name, "file"));
        edges.push((100, i, EdgeKind::Depends));
    }
    let mut store = store_of(nodes, edges);
    record_name(&mut store, "src/big.ts");
    let result = get_dependencies(&store, "src/big.ts", false, 1, None);
    assert!(
        result.contains("showing 25 of 30"),
        "footer must report 25 of 30, got: {result}"
    );
    assert!(
        result.contains("get_context for ranked coverage"),
        "footer must include get_context hint, got: {result}"
    );
    assert_eq!(DEFAULT_DEPS_TOP_K, 25);
}

#[test]
fn get_dependencies_symbol_arg_returns_hint() {
    let mut store = store_of(
        vec![node(1, "src/docs.ts", "typescript", "fn:docs_section", "function")],
        vec![],
    );
    record_name(&mut store, "docs_section");
    let result = get_dependencies(&store, "docs_section", false, 1, None);
    assert!(
        result.contains("not a file"),
        "symbol arg must produce the not-a-file hint; got: {result}"
    );
    assert!(
        result.contains("get_callers"),
        "hint must point at the symbol tools; got: {result}"
    );
}

#[test]
fn get_dependencies_unknown_arg_returns_hint() {
    let mut store = store_of(vec![node(1, "a.ts", "typescript", "fn:a", "function")], vec![]);
    record_name(&mut store, "zzz_nonexistent");
    let result = get_dependencies(&store, "zzz_nonexistent", false, 1, None);
    assert!(
        result.contains("no file matched"),
        "unknown arg must produce the no-match hint; got: {result}"
    );
}

#[test]
fn get_dependencies_file_without_deps_stays_empty() {
    let mut store = store_of(
        vec![node(1, "src/lone.ts", "typescript", "src/lone.ts", "file")],
        vec![],
    );
    record_name(&mut store, "src/lone.ts");
    let result = get_dependencies(&store, "src/lone.ts", false, 1, None);
    assert!(
        !result.contains("not a file") && !result.contains("no file matched"),
        "file with no deps must stay a plain empty answer; got: {result}"
    );
}

#[test]
fn get_dependencies_transitive_symbol_arg_returns_hint() {
    let mut store = store_of(
        vec![node(1, "src/docs.ts", "typescript", "fn:docs_section", "function")],
        vec![],
    );
    record_name(&mut store, "docs_section");
    let result = get_dependencies(&store, "docs_section", true, 3, None);
    assert!(
        result.contains("not a file"),
        "transitive path must hint too; got: {result}"
    );
}

#[test]
fn get_dependencies_raw_no_footer_when_under_top_k() {
    let mut store = store_of(
        vec![
            node(1, "src/small.ts", "typescript", "src/small.ts", "file"),
            node(2, "dep.ts", "typescript", "dep.ts", "file"),
        ],
        vec![(1, 2, EdgeKind::Depends)],
    );
    record_name(&mut store, "src/small.ts");
    let result = get_dependencies(&store, "src/small.ts", false, 1, None);
    assert!(
        !result.contains("showing"),
        "no footer when under top-k, got: {result}"
    );
    assert!(result.contains("dep.ts"), "dep must appear: {result}");
}
