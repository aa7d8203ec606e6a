//! Seeds of a search for context, and which nodes are worth showing.

use travsr_tools::docs::{
    build_docs_section, rerank_doc_candidates, DocCandidate, DocLane, DocScore,
    DOC_ENTRY_MAX_BYTES,
};
use travsr_tools::noise::{
    is_anchor_noise, is_context_result_noise, is_noise_seed, is_test_symbol, kind_boost,
};
use travsr_tools::retrieval::EmbedRun;
use travsr_tools::sections::{build_context_signals, match_source_header, MatchSource};
use travsr_tools::seeds::{
    dedup_adjacent_seeds, embed_path_seeds, enrich_seeds_with_callers, fts_seeds_weighted,
    merge_fts_knn_seeds, timely_seeds, KnnHit, Weighted, FTS_EXACT_WEIGHT, FTS_FUZZY_WEIGHT,
    MAX_EMBED_SEEDS,
};
use travsr_tools::store::{Edge, EdgeKind, FuzzySearch, NameSearch, Node, Store};

const ONE: usize = 1_000_000_000;

fn node(id: u64, path: &str, sig: &str, kind: &str) -> Node {
    Node {
        id,
        kind: kind.to_string(),
        signature: sig.to_string(),
        path: path.to_string(),
        corpus: "corp".to_string(),
        language: "rust".to_string(),
        package: String::new(),
        line: Some(1),
        end_line: Some(2),
        is_test: false,
        is_noise: false,
        token_cost: 10,
    }
}

/// A node that the index classified as noise.
fn noise(id: u64, path: &str, sig: &str, kind: &str) -> Node {
    let mut n = node(id, path, sig, kind);
    n.is_noise = true;
    n
}

fn make(nodes: Vec<Node>, calls: &[(u64, u64)]) -> Store {
    let mut store = Store::new();
    store.nodes = nodes;
    for (src, dst) in calls {
        store.edges.push(Edge { src: *src, dst: *dst, kind: EdgeKind::RefCall });
    }
    store
}

fn hit(id: u64, weight: usize) -> KnnHit {
    KnnHit { id, weight, clears_floor: true }
}

fn seed(id: u64, weight: usize) -> Weighted {
    Weighted { id, weight }
}

// ---- noise

#[test]
fn context_result_noise_drops_ci_packages_files_and_tests_keeps_real_symbols() {
    assert!(is_context_result_noise(&node(1, "", "pkg:actions/checkout@abc123", "package")));
    assert!(is_context_result_noise(&node(1, "", "pkg:some/dep@1.0", "function")));
    assert!(is_context_result_noise(&node(1, "src/foo.rs", "file", "file")));
    assert!(is_context_result_noise(&noise(1, "tests/it.rs", "fn:it_works", "function")));
    assert!(!is_context_result_noise(&node(
        1,
        "crates/travsr-mcp/src/tools.rs",
        "fn:get_context_body",
        "function"
    )));
    assert!(!is_context_result_noise(&node(1, "src/daemon.rs", "struct:Daemon", "struct")));
}

#[test]
fn doc_chunk_nodes_are_permanently_excluded_from_generic_seed_path() {
    let doc_node = noise(1, "docs/architecture.md", "doc:overview", "doc-chunk");
    assert!(
        is_noise_seed(&doc_node),
        "doc-chunk must be excluded from every seed/candidate path in build_seed_set"
    );
    assert!(
        is_context_result_noise(&doc_node),
        "doc-chunk must be excluded from get_context's result set too"
    );
}

#[test]
fn is_context_result_noise_still_excludes_doc_chunk_after_phase_2() {
    assert!(is_context_result_noise(&noise(1, "docs/x.md", "doc:section", "doc-chunk")));
}

#[test]
fn is_test_symbol_catches_marker_names_not_real_functions() {
    let test_fns = [
        ("function", "fn:test_builds_the_seed_set"),
        ("function", "fn:seed_set_test"),
        ("function", "fn:TestReconcile"),
        ("function", "fn:BenchmarkKnapsack"),
        ("method", "method:TestJig#TestRun"),
    ];
    for (kind, sig) in test_fns {
        let n = node(1, "crates/x/src/lib.rs", sig, kind);
        assert!(is_test_symbol(&n), "{sig} should read as a test symbol");
    }
    for sig in [
        "fn:build_seed_set",
        "fn:Testament",
        "fn:latest_snapshot",
        "struct:Tester",
    ] {
        let n = node(1, "crates/x/src/lib.rs", sig, "function");
        assert!(!is_test_symbol(&n), "{sig} must not read as a test symbol");
    }
}

#[test]
fn is_anchor_noise_excludes_ci_package_but_not_real_impl() {
    let pkg = node(1, ".github/workflows/ci.yml", "pkg:actions/checkout@v4", "package");
    assert!(
        is_anchor_noise(&pkg),
        "pkg:actions/* must be excluded from anchors"
    );
    let t = node(1, "crates/x/src/lib.rs", "fn:test_reticulates_splines", "function");
    assert!(is_anchor_noise(&t) && !is_noise_seed(&t));
    let impl_fn = node(1, "crates/x/src/lib.rs", "fn:build_seed_set", "function");
    assert!(!is_anchor_noise(&impl_fn), "real impl must be anchorable");
}

#[test]
fn kinds_count_differently() {
    for (kind, language, want) in [
        ("method", "rust", 200),
        ("trait", "rust", 150),
        ("constant", "rust", 120),
        ("impl", "rust", 100),
        ("field", "rust", 70),
        ("import", "rust", 30),
        ("go-pkg", "go", 5),
        ("module", "go", 5),
        ("module", "rust", 100),
    ] {
        assert_eq!(kind_boost(kind, language), want, "{kind} in {language}");
    }
}

// ---- seeds

#[test]
fn fts_seeds_weighted_filters_crate_noise() {
    let crate_node =
        noise(1, "crates/travsr-retrieval/Cargo.toml", "crate:getrandom", "crate");
    let impl_node =
        node(2, "crates/travsr-retrieval/src/ppr.rs", "fn:random_walk", "function");
    let mut store = make(vec![crate_node, impl_node], &[]);
    let all = store.nodes.clone();
    store.name_searches.push(NameSearch { term: "random_walk".to_string(), hits: Some(all) });
    let seeds = fts_seeds_weighted(&store, "random_walk", &vec![]);
    assert!(
        seeds.iter().all(|s| s.id == 2),
        "crate-kind nodes must be filtered from FTS seeds; got {:?}",
        seeds
    );
    assert_eq!(seeds, vec![seed(2, 2 * FTS_EXACT_WEIGHT)]);
}

#[test]
fn a_failed_exact_search_falls_back_to_the_fuzzy_one() {
    let mut store = make(vec![node(2, "src/a.rs", "fn:random_walk", "function")], &[]);
    let all = store.nodes.clone();
    store.name_searches.push(NameSearch { term: "rndom".to_string(), hits: Some(vec![]) });
    store.fuzzy_searches.push(FuzzySearch {
        term: "rndom".to_string(),
        language: None,
        exact: false,
        hits: Some(all),
    });
    let seeds = fts_seeds_weighted(&store, "rndom", &vec![]);
    assert_eq!(seeds, vec![seed(2, 2 * FTS_FUZZY_WEIGHT)]);
    let denied = fts_seeds_weighted(&store, "rndom", &vec![2]);
    assert!(denied.is_empty(), "got {denied:?}");
}

#[test]
fn a_dotted_query_asks_for_its_qualifier() {
    let nodes = vec![
        node(1, "pkg/a.go", "var:syncPod", "var"),
        node(2, "pkg/b.go", "method:Kubelet.syncPod", "method"),
    ];
    let mut store = make(nodes.clone(), &[]);
    store.name_searches.push(NameSearch { term: "syncPod".to_string(), hits: Some(nodes) });
    let seeds = fts_seeds_weighted(&store, "Kubelet.syncPod", &vec![]);
    assert_eq!(seeds, vec![seed(2, 2 * FTS_EXACT_WEIGHT)]);
    assert_eq!(fts_seeds_weighted(&store, "syncPod", &vec![]).len(), 2);
}

#[test]
fn callers_from_tests_are_no_seeds() {
    let nodes = vec![
        node(1, "src/a.rs", "fn:a", "function"),
        node(2, "crates/x/tests/b.rs", "fn:b", "function"),
        node(3, "crates/x/benches/c.rs", "fn:c", "function"),
        node(4, "src/d.rs", "fn:d", "function"),
    ];
    let store = make(nodes, &[(2, 1), (3, 1), (4, 1)]);
    let ids: Vec<u64> = enrich_seeds_with_callers(&store, &vec![seed(1, ONE)], usize::MAX)
        .iter()
        .map(|s| s.id)
        .collect();
    assert_eq!(ids, vec![1, 4]);
}

#[test]
fn embed_path_seeds_filters_noise_nodes() {
    let crate_node =
        noise(1, "crates/travsr-retrieval/Cargo.toml", "crate:travsr-retrieval", "crate");
    let test_node = noise(2, "crates/travsr-mcp/tests/conformance.rs", "fn:run_mcp", "function");
    let pkg_node = node(3, "", "pkg:actions/checkout@v4", "package");
    let impl_node = node(4, "crates/travsr-mcp/src/tools.rs", "fn:get_context_body", "function");
    let store = make(vec![crate_node, test_node, pkg_node, impl_node], &[]);
    let hits = vec![
        hit(3, 970_000_000),
        hit(1, 950_000_000),
        hit(2, 900_000_000),
        hit(4, 850_000_000),
    ];
    let found = embed_path_seeds(&store, &hits, &vec![]);
    let seed_ids: Vec<u64> = found.seeds.iter().map(|h| h.id).collect();
    assert!(!seed_ids.contains(&3), "pkg node must not be a seed");
    assert!(!seed_ids.contains(&1), "crate node must not be a seed");
    assert!(!seed_ids.contains(&2), "test-dir node must not be a seed");
    assert!(
        seed_ids.contains(&4),
        "only the real src impl is a seed; got: {:?}",
        found.seeds
    );
    assert_eq!(found.seeds.len(), 1, "only the impl seed expected");
    assert_eq!(found.eligible, 1, "n_eligible should match non-noise seeds");
    let in_oracle = |id: u64| found.oracle.iter().any(|h| h.id == id);
    assert!(
        !in_oracle(3),
        "pkg node must be excluded from the cosine oracle"
    );
    assert!(
        !in_oracle(1),
        "crate node must be excluded from the cosine oracle"
    );
    assert!(in_oracle(4), "real impl must remain in oracle");
}

#[test]
fn late_hits_are_dropped() {
    let nodes = vec![node(1, "src/a.ts", "fn:a", "function")];
    let store = make(nodes, &[]);
    let hits = vec![hit(1, 900_000_000)];
    let took = |elapsed_ms: u128| Some(EmbedRun { ready: true, elapsed_ms, budget_ms: 600 });
    assert_eq!(timely_seeds(&store, took(600), &hits, &vec![]).seeds.len(), 1);
    let late = timely_seeds(&store, took(601), &hits, &vec![]);
    assert!(late.seeds.is_empty() && late.oracle.is_empty() && late.eligible == 0);
    assert!(timely_seeds(&store, None, &hits, &vec![]).seeds.is_empty());
}

#[test]
fn embed_path_seeds_reports_cap_count() {
    let n_total = MAX_EMBED_SEEDS + 2;
    let nodes: Vec<Node> = (0..n_total)
        .map(|i| node(i as u64 + 1, &format!("src/file{i}.ts"), &format!("fn:sym{i}"), "function"))
        .collect();
    let hits: Vec<KnnHit> =
        (0..n_total).map(|i| hit(i as u64 + 1, 900_000_000 - i * 1_000_000)).collect();
    let found = embed_path_seeds(&make(nodes, &[]), &hits, &vec![]);
    assert_eq!(
        found.seeds.len(),
        MAX_EMBED_SEEDS,
        "seeds capped at MAX_EMBED_SEEDS"
    );
    assert_eq!(
        found.eligible, n_total,
        "n_eligible counts all eligible before cap"
    );
}

#[test]
fn embed_path_seeds_cap_signal_is_correct() {
    let n_total = MAX_EMBED_SEEDS + 5;
    let nodes: Vec<Node> = (0..n_total)
        .map(|i| node(i as u64 + 1, &format!("src/cap{i}.ts"), &format!("fn:cap{i}"), "function"))
        .collect();
    let hits: Vec<KnnHit> = (0..n_total).map(|i| hit(i as u64 + 1, 950_000_000)).collect();
    let found = embed_path_seeds(&make(nodes, &[]), &hits, &vec![]);
    assert!(
        found.eligible > found.seeds.len(),
        "cap fired: n_eligible ({}) > seeds.len() ({})",
        found.eligible,
        found.seeds.len()
    );
}

#[test]
fn seeds_do_not_cluster_in_one_file() {
    let nodes: Vec<Node> = (1..=4)
        .map(|i| node(i, "src/one.rs", &format!("fn:f{i}"), "function"))
        .collect();
    let hits: Vec<KnnHit> = (1..=4).map(|i| hit(i, 900_000_000)).collect();
    let found = embed_path_seeds(&make(nodes, &[]), &hits, &vec![]);
    assert_eq!(found.seeds.len(), 2, "got {:?}", found.seeds);
}

#[test]
fn merged_seeds_keep_the_better_weight() {
    let fts = vec![seed(1, ONE), seed(2, 600_000_000)];
    let knn = vec![seed(2, 900_000_000), seed(3, 500_000_000)];
    let (merged, capped) = merge_fts_knn_seeds(&fts, &knn, 2);
    assert!(!capped);
    let weight = |id: u64| merged.iter().find(|s| s.id == id).map(|s| s.weight);
    assert_eq!(weight(1), Some(ONE));
    assert_eq!(weight(2), Some(900_000_000));
    assert_eq!(weight(3), Some(500_000_000));
}

#[test]
fn dedup_adjacent_seeds_empty_and_single_passthrough() {
    assert!(dedup_adjacent_seeds(&Store::new(), &vec![]).is_empty());
    let store = make(vec![node(1, "a.ts", "fn:solo", "function")], &[]);
    assert_eq!(dedup_adjacent_seeds(&store, &vec![seed(1, ONE)]), vec![seed(1, ONE)]);
}

fn pair() -> Vec<Node> {
    vec![node(1, "a.ts", "fn:dedup_a", "function"), node(2, "b.ts", "fn:dedup_b", "function")]
}

#[test]
fn dedup_adjacent_seeds_drops_lower_scored_direct_neighbor() {
    let store = make(pair(), &[(1, 2)]);
    let result = dedup_adjacent_seeds(&store, &vec![seed(1, ONE), seed(2, 700_000_000)]);
    assert_eq!(
        result,
        vec![seed(1, ONE)],
        "b must be dropped as neighbor of a"
    );
}

#[test]
fn dedup_adjacent_seeds_keeps_upstream_callers() {
    let store = make(pair(), &[(2, 1)]);
    let seeds = vec![seed(1, ONE), seed(2, 700_000_000)];
    let result = dedup_adjacent_seeds(&store, &seeds);
    assert_eq!(
        result, seeds,
        "b is a caller, must be kept for orthogonal PPR coverage"
    );
}

#[test]
fn dedup_adjacent_seeds_keeps_unconnected_seeds() {
    let mut nodes = pair();
    nodes.push(node(3, "c.ts", "fn:iso_c", "function"));
    let seeds = vec![seed(1, ONE), seed(2, 900_000_000), seed(3, 800_000_000)];
    let result = dedup_adjacent_seeds(&make(nodes, &[]), &seeds);
    assert_eq!(result, seeds, "no edges means no dedup");
}

#[test]
fn dedup_adjacent_seeds_keeps_non_seed_edges() {
    let mut nodes = pair();
    nodes.push(node(3, "x.ts", "fn:ext_x", "function"));
    nodes.push(node(4, "y.ts", "fn:ext_y", "function"));
    let seeds = vec![seed(1, ONE), seed(2, 900_000_000)];
    let result = dedup_adjacent_seeds(&make(nodes, &[(1, 3), (2, 4)]), &seeds);
    assert_eq!(result, seeds, "edges to non-seeds must not trigger dedup");
}

#[test]
fn enrich_adds_production_caller_at_reduced_weight() {
    let store = make(
        vec![
            node(1, "lib.rs", "fn:target_fn", "function"),
            node(2, "main.rs", "fn:caller_fn", "function"),
        ],
        &[(2, 1)],
    );
    let result = enrich_seeds_with_callers(&store, &vec![seed(1, ONE)], usize::MAX);
    assert_eq!(result.len(), 2, "caller should be added");
    let caller_entry = result.iter().find(|s| s.id == 2);
    assert!(caller_entry.is_some(), "caller_id missing from result");
    assert_eq!(caller_entry.unwrap().weight, 350_000_000, "caller weight should be 0.35");
}

#[test]
fn enrich_skips_test_callers() {
    let store = make(
        vec![
            node(1, "lib.rs", "fn:important_fn", "function"),
            node(2, "lib.rs", "fn:test_important_fn", "function"),
        ],
        &[(2, 1)],
    );
    let result = enrich_seeds_with_callers(&store, &vec![seed(1, ONE)], usize::MAX);
    assert_eq!(
        result.len(),
        1,
        "test caller must be filtered, only seed remains"
    );
    assert!(!result.iter().any(|s| s.id == 2));
}

#[test]
fn enrich_skips_already_present_seed() {
    let store = make(
        vec![node(1, "a.rs", "fn:fn_a", "function"), node(2, "b.rs", "fn:fn_b", "function")],
        &[(2, 1)],
    );
    let seeds = vec![seed(1, ONE), seed(2, 900_000_000)];
    let result = enrich_seeds_with_callers(&store, &seeds, usize::MAX);
    assert_eq!(
        result.len(),
        2,
        "no duplicates when caller already in seed set"
    );
    let b = result.iter().find(|s| s.id == 2).unwrap();
    assert_eq!(b.weight, 900_000_000, "existing seed weight must not be overwritten");
}

#[test]
fn enrich_empty_seeds_passthrough() {
    assert!(enrich_seeds_with_callers(&Store::new(), &vec![], usize::MAX).is_empty());
}

#[test]
fn enrich_callers_depth_two_adds_grandparent_caller() {
    let store = make(
        vec![
            node(1, "lib.rs", "fn:child", "function"),
            node(2, "lib.rs", "fn:parent", "function"),
            node(3, "main.rs", "fn:grandparent", "function"),
        ],
        &[(2, 1), (3, 2)],
    );
    let seeds = vec![seed(1, ONE)];
    let seeds = enrich_seeds_with_callers(&store, &seeds, 15);
    let seeds = enrich_seeds_with_callers(&store, &seeds, 10);
    let weight = |id: u64| seeds.iter().find(|s| s.id == id).map(|s| s.weight);
    assert_eq!(weight(2), Some(350_000_000), "depth-1 caller (parent) must be seeded");
    assert_eq!(weight(3), Some(122_500_000), "depth-2 caller (grandparent) must be seeded");
}

#[test]
fn enrich_callers_respects_max_new_total() {
    let mut nodes = vec![node(100, "lib.rs", "fn:hub", "function")];
    let mut calls = Vec::new();
    for i in 0..8u64 {
        nodes.push(node(i + 1, &format!("caller{i}.rs"), &format!("fn:caller_{i}"), "function"));
        calls.push((i + 1, 100));
    }
    let result = enrich_seeds_with_callers(&make(nodes, &calls), &vec![seed(100, ONE)], 3);
    assert_eq!(
        result.len(),
        4,
        "max_new_total=3 must cap additions; got {}",
        result.len()
    );
}

#[test]
fn build_context_signals_ordering() {
    let result = build_context_signals(
        &Store::new(),
        false,
        false,
        false,
        Some("[overflow msg]"),
        Some("[seed cap msg]"),
    );
    let overflow_pos = result.find("[overflow msg]").unwrap();
    let seed_pos = result.find("[seed cap msg]").unwrap();
    let note_pos = result.find("[note: semantic search").unwrap();
    assert!(overflow_pos < seed_pos, "overflow must precede seed-cap");
    assert!(seed_pos < note_pos, "seed-cap must precede degraded notes");
}

// ---- documentation

fn doc_chunk(path: &str, sig: &str, line: u32, end_line: u32) -> Node {
    let mut n = noise(1, path, sig, "doc-chunk");
    n.language = "markdown".to_string();
    n.line = Some(line);
    n.end_line = Some(end_line);
    n
}

fn lane(weight: usize, budget_cap: usize) -> DocLane {
    DocLane {
        candidates: vec![DocCandidate { id: 1, weight, clears_floor: true, has_text: false }],
        confident: false,
        scores: None,
        max_results: 3,
        budget_cap,
    }
}

fn no_docs() -> DocLane {
    DocLane {
        candidates: vec![],
        confident: false,
        scores: None,
        max_results: 3,
        budget_cap: 600,
    }
}

#[test]
fn build_docs_section_with_no_hook_wired_is_empty() {
    let (entries, tokens) = build_docs_section(&Store::new(), &no_docs());
    assert!(entries.is_empty());
    assert_eq!(tokens, 0);
}

#[test]
fn build_docs_section_explicitly_disabled_is_empty_even_with_a_hook() {
    let store = make(
        vec![doc_chunk(
            "docs/plans/model-relative-semantic-floors.md",
            "doc:auto-calibrated-floors",
            10,
            40,
        )],
        &[],
    );
    let (entries, tokens) = build_docs_section(&store, &no_docs());
    assert!(
        entries.is_empty(),
        "the flag must gate the lane even with a hook that would otherwise answer"
    );
    assert_eq!(tokens, 0);
}

#[test]
fn build_docs_section_renders_floored_hits_with_no_score_in_text() {
    let store = make(
        vec![doc_chunk(
            "docs/plans/model-relative-semantic-floors.md",
            "doc:auto-calibrated-floors",
            10,
            40,
        )],
        &[],
    );
    let (entries, tokens) = build_docs_section(&store, &lane(710_000_000, 600));
    assert_eq!(entries.len(), 1);
    let line = &entries[0].line;
    assert_eq!(entries[0].source, MatchSource::Docs);
    assert!(
        line.contains("docs/plans/model-relative-semantic-floors.md"),
        "line must show the source path: {line}"
    );
    assert!(
        line.contains("Auto Calibrated Floors"),
        "line must show a humanized trail: {line}"
    );
    assert!(
        line.contains(":10-40"),
        "line must show the chunk's line span: {line}"
    );
    assert!(
        !line.contains("0.71") && !line.contains("0.7"),
        "docs section must never print a raw cosine: {line}"
    );
    assert!(tokens > 0);
}

#[test]
fn rerank_doc_candidates_skips_cross_encoder_above_threshold() {
    let candidates = vec![
        DocCandidate { id: 1, weight: 950_000_000, clears_floor: true, has_text: true },
        DocCandidate { id: 2, weight: 400_000_000, clears_floor: true, has_text: true },
    ];
    let scores = Some(vec![
        DocScore { weight: 100, clears_floor: false },
        DocScore { weight: ONE, clears_floor: true },
    ]);
    let mut lane =
        DocLane { candidates, confident: true, scores, max_results: 3, budget_cap: 600 };
    assert_eq!(
        rerank_doc_candidates(&lane),
        vec![seed(1, 950_000_000), seed(2, 400_000_000)],
        "must take the cosine-only path, unchanged by any reranker score"
    );
    lane.confident = false;
    assert_eq!(rerank_doc_candidates(&lane), vec![seed(2, ONE)]);
}

#[test]
fn build_docs_section_budget_cap_can_drop_all_entries() {
    let store = make(
        vec![doc_chunk(
            "docs/plans/some-very-long-plan-file-name.md",
            "doc:a-fairly-long-heading-trail-that-costs-several-tokens",
            10,
            40,
        )],
        &[],
    );
    let (entries, tokens) = build_docs_section(&store, &lane(900_000_000, 4));
    assert!(entries.is_empty());
    assert_eq!(tokens, 0);
}

#[test]
fn doc_entry_is_capped_independently_of_the_token_budget() {
    let long_path = format!("docs/{}/x.md", "a".repeat(4_000));
    let long_anchor = format!("doc:{}", "b".repeat(4_000));
    let store = make(vec![doc_chunk(&long_path, &long_anchor, 1, 2)], &[]);
    let (entries, _tokens) = build_docs_section(&store, &lane(950_000_000, 30_000));
    assert_eq!(entries.len(), 1);
    assert!(
        entries[0].line.len() <= DOC_ENTRY_MAX_BYTES + 4,
        "entry must be capped, got {} bytes",
        entries[0].line.len()
    );
}

#[test]
fn doc_section_header_is_present_and_unforgeable() {
    let store = make(
        vec![doc_chunk(
            "docs/x.md",
            "doc:exact-literal-symbol-fts-match-not-reranked",
            1,
            4,
        )],
        &[],
    );
    let (entries, _t) = build_docs_section(&store, &lane(900_000_000, 600));
    assert_eq!(entries.len(), 1);
    assert_eq!(entries[0].source, MatchSource::Docs);
    let header = match_source_header(MatchSource::Docs);
    assert!(
        header.contains("documentation prose"),
        "docs must render under the untrusted-prose header: {header}"
    );
    assert!(
        !entries[0].line.starts_with("──"),
        "a chunk must not be able to open with a section rule: {}",
        entries[0].line
    );
}
