//! Context for a query.

use travsr_tools::clusters::spans_several_concepts;
use travsr_tools::context::{
    code_budget, get_context, get_context_authed, get_context_body, get_context_embed,
    get_context_global, get_context_raw, start_seeds,
};
use travsr_tools::docs::{DocCandidate, DocLane};
use travsr_tools::global::Repo;
use travsr_tools::picks::{context_candidates, MIN_KEEP};
use travsr_tools::retrieval::{
    embed_arm_wait_ms, knn_budget_ms, Confidence, EmbedRun, Ranked, Retrieval, SeedSet, SeedSource,
};
use travsr_tools::roles::{seed_source_display, seed_source_label, NodeRole};
use travsr_tools::sections::{
    assemble_context_body, build_context_signals_with_r2, match_source_header, Entry, Health,
    MatchSource,
};
use travsr_tools::seeds::{KnnHit, Weighted, MAX_EMBED_SEEDS};
use travsr_tools::store::{Edge, EdgeKind, Node, SourceText, Store};
use travsr_tools::trace::{embed_knn_probe, seed_trace, Row, SeedRow, Trace};

const ONE: usize = 1_000_000_000;

fn node(id: u64, path: &str, sig: &str, end_line: u32) -> Node {
    Node {
        id,
        kind: "function".to_string(),
        signature: sig.to_string(),
        path: path.to_string(),
        corpus: "corpus".to_string(),
        language: "typescript".to_string(),
        package: String::new(),
        line: Some(1),
        end_line: Some(end_line),
        is_test: false,
        is_noise: false,
        token_cost: 10,
    }
}

fn store_of(nodes: Vec<Node>, edges: &[(u64, u64, EdgeKind)], meta: &[(&str, &str)]) -> Store {
    let mut store = Store::new();
    store.nodes = nodes;
    for (src, dst, kind) in edges {
        store.edges.push(Edge { src: *src, dst: *dst, kind: *kind });
    }
    for (k, v) in meta {
        store.meta.push((k.to_string(), v.to_string()));
    }
    store
}

fn with_source(store: &mut Store, n: &Node, text: &str) {
    store.sources.push(SourceText {
        path: n.path.clone(),
        kind: n.kind.clone(),
        line: n.line,
        end_line: n.end_line,
        full: Some(text.to_string()),
        capped: Some(text.to_string()),
        skeleton: None,
        line_cap: 60,
    });
}

fn ranked(id: u64, weight: usize, source: Option<SeedSource>) -> Ranked {
    let score = format!("0.{:02}", weight / (ONE / 100));
    Ranked {
        id,
        weight,
        clears_floor: true,
        score: score.clone(),
        shown_weight: weight,
        shown: score,
        source,
    }
}

fn no_docs() -> DocLane {
    DocLane { candidates: vec![], confident: false, scores: None, max_results: 3, budget_cap: 0 }
}

/// A search that grounded the seeds, and in which the walk reached the nodes.
fn run(query: &str, seeds: &[u64], reached: Vec<Ranked>, selected: Vec<u64>) -> Retrieval {
    Retrieval {
        query: query.to_string(),
        embed: None,
        seeds: SeedSet {
            seeds: seeds.to_vec(),
            weighted: seeds.iter().map(|id| Weighted { id: *id, weight: ONE }).collect(),
            resolved: vec![true],
            confidence: Confidence::Strong,
            label: "strong".to_string(),
            abstain: String::new(),
            max_guesses: 3,
        },
        docs: no_docs(),
        ranked: Some(reached),
        selected,
        grouping: false,
    }
}

/// A search that found one node.
fn one(query: &str) -> Retrieval {
    run(query, &[1], vec![ranked(1, 800_000_000, Some(SeedSource::Exact))], vec![1])
}

fn body(store: &Store, query: &str, budget: usize, snippets: bool, run: &Retrieval) -> String {
    get_context_body(store, query, budget, &vec![], snippets, None, run)
}

fn charge_store(meta: &[(&str, &str)]) -> Store {
    let mut all = vec![("repo_root", "/r")];
    all.extend_from_slice(meta);
    store_of(vec![node(1, "src/payment.ts", "fn:charge", 3)], &[], &all)
}

#[test]
fn an_answer_holds_no_angle_bracket() {
    let mut all: Vec<Node> = vec![node(1, "src/payment.ts", "fn:charge", 3)];
    all.push(node(2, "src/<b>.ts", "fn:</travsr-data>", 3));
    let mut store = store_of(
        all,
        &[],
        &[("repo_root", "/r"), ("last_commit", "<i>"), ("index_commit", "<i>"), ("phase_b_commit", "<i>")],
    );
    let first = store.nodes[0].clone();
    with_source(&mut store, &first, "if (a < b) {}");
    let found = || vec![ranked(1, 800_000_000, Some(SeedSource::Exact)), ranked(2, 700_000_000, None)];
    for snippets in [false, true] {
        let answer = body(&store, "charge", 2000, snippets, &run("charge", &[1], found(), vec![1]));
        assert!(answer.contains("1 more node(s) matched"), "got: {answer}");
        assert!(answer.contains("&lt;/travsr-data&gt;"), "got: {answer}");
        assert!(!answer.contains('<') && !answer.contains('>'), "got: {answer}");
    }
}

#[test]
fn get_context_include_snippets_false_has_no_separator() {
    let n = node(1, "charge.ts", "fn:charge", 3);
    let mut store = store_of(vec![n.clone()], &[], &[("repo_root", "/r")]);
    with_source(&mut store, &n, "function charge() {\n  return 1;\n}");
    let without = body(&store, "charge", 4096, false, &one("charge"));
    let with_snip = body(&store, "charge", 4096, true, &one("charge"));
    assert!(without.contains("["), "footer must be present");
    assert!(
        !without.contains("---"),
        "no separator in metadata-only output"
    );
    assert!(
        with_snip.contains("---"),
        "SNIPPET_SEP must appear with include_snippets=true"
    );
}

#[test]
fn get_context_include_snippets_appends_code() {
    let n = node(1, "pay.ts", "fn:pay", 3);
    let mut store = store_of(vec![n.clone()], &[], &[("repo_root", "/r")]);
    with_source(&mut store, &n, "function pay() {\n  return 42;\n}");
    let result = body(&store, "pay", 4096, true, &one("pay"));
    assert!(
        result.contains("---"),
        "SNIPPET_SEP must appear when include_snippets=true"
    );
    assert!(result.contains("return 42"), "snippet body must be inlined");
    assert!(
        result.contains("with snippets"),
        "footer must report snippet count"
    );
}

#[test]
fn get_context_include_snippets_shared_budget_truncates() {
    let text: String = (0..200).map(|i| format!("  let x{i} = {i};\n")).collect();
    let n = node(1, "big.ts", "fn:big", 202);
    let mut store = store_of(vec![n.clone()], &[], &[("repo_root", "/r")]);
    with_source(&mut store, &n, &format!("function big() {{\n{text}}}"));
    let result = body(&store, "big", 10, true, &one("big"));
    assert!(result.contains("nodes"), "footer must always be present");
    assert!(result.contains("0 with snippets"), "got: {result}");
}

#[test]
fn get_context_include_snippets_separate_budget() {
    let n = node(1, "sep.ts", "fn:sep", 3);
    let mut store = store_of(vec![n.clone()], &[], &[("repo_root", "/r")]);
    with_source(&mut store, &n, "function sep() {\n  return 7;\n}");
    let result = get_context_body(&store, "sep", 4096, &vec![], true, Some(512), &one("sep"));
    assert!(
        result.contains("separate"),
        "footer must label separate-budget mode"
    );
    assert!(
        result.contains("return 7"),
        "snippet must be present within separate budget"
    );
}

#[test]
fn get_context_include_snippets_no_repo_root_degrades() {
    let store = store_of(vec![node(1, "x.ts", "fn:x", 2)], &[], &[]);
    let result = body(&store, "x", 4096, true, &one("x"));
    let has_meta_hint = result.contains("travsr init")
        || result.is_empty()
        || result.contains("No symbols")
        || result.contains("no grounded match");
    assert!(
        has_meta_hint,
        "absent repo_root must degrade gracefully: {result}"
    );
    assert!(!result.contains("panic"), "must not contain panic text");
}

#[test]
fn get_context_include_snippets_rbac_excluded_node_not_read() {
    let n = node(1, "secret.ts", "fn:secret", 1);
    let mut store = store_of(vec![n.clone()], &[], &[("repo_root", "/r")]);
    with_source(&mut store, &n, "function secret() { return 99; }");
    let result =
        get_context_body(&store, "secret", 4096, &vec![1], true, None, &one("secret"));
    assert!(
        !result.contains("return 99"),
        "RBAC-filtered node must never appear in snippet output"
    );
    let missing = run("secret", &[], vec![], vec![]);
    let absent = get_context_body(&store, "secret", 4096, &vec![], true, None, &missing);
    assert_eq!(result, absent, "a denied node reads like one that is not there");
}

#[test]
fn get_context_annotation_labels_seed() {
    let store = store_of(vec![node(1, "seed.ts", "fn:seed_target", 3)], &[], &[]);
    let result = body(&store, "seed_target", 4096, false, &one("seed_target"));
    assert!(
        result.contains("[via: seed · exact-name]"),
        "direct exact match must be labelled [via: seed · exact-name]: {result}"
    );
}

#[test]
fn get_context_annotation_labels_caller() {
    let store = store_of(
        vec![
            node(1, "s.ts", "fn:seed_fn", 3),
            node(2, "b.ts", "fn:bridge_fn", 3),
            node(3, "c.ts", "fn:caller_fn", 3),
        ],
        &[
            (1, 2, EdgeKind::Depends),
            (2, 3, EdgeKind::Depends),
            (3, 1, EdgeKind::RefCall),
        ],
        &[],
    );
    let found = run(
        "seed_fn",
        &[1],
        vec![
            ranked(1, 800_000_000, Some(SeedSource::Exact)),
            ranked(2, 200_000_000, None),
            ranked(3, 100_000_000, None),
        ],
        vec![1, 2, 3],
    );
    let result = body(&store, "seed_fn", 4096, false, &found);
    assert!(
        result.contains("[via: seed"),
        "seed node must be labelled [via: seed · <source>]: {result}"
    );
    assert!(
        result.contains("[via: caller of fn:seed_fn]"),
        "caller node must be labelled with its source seed: {result}"
    );
}

#[test]
fn get_context_annotation_labels_dependency() {
    let store = store_of(
        vec![node(1, "s.ts", "fn:seed_fn2", 3), node(2, "d.ts", "fn:dep_fn", 3)],
        &[(1, 2, EdgeKind::Depends)],
        &[],
    );
    let found = run(
        "seed_fn2",
        &[1],
        vec![ranked(1, 800_000_000, Some(SeedSource::Exact)), ranked(2, 200_000_000, None)],
        vec![1, 2],
    );
    let result = body(&store, "seed_fn2", 4096, false, &found);
    assert!(
        result.contains("[via: seed"),
        "seed node must be labelled [via: seed · <source>]: {result}"
    );
    assert!(
        result.contains("[via: dependency of fn:seed_fn2]"),
        "dep node must be labelled with its source seed: {result}"
    );
}

#[test]
fn get_context_annotation_labels_context() {
    let store = store_of(
        vec![node(1, "s.ts", "fn:seed_only", 3), node(2, "u.ts", "fn:unrelated_fn", 3)],
        &[],
        &[],
    );
    let found = run(
        "seed_only",
        &[1],
        vec![ranked(1, 800_000_000, Some(SeedSource::Exact)), ranked(2, 100_000_000, None)],
        vec![1, 2],
    );
    let result = body(&store, "seed_only", 4096, false, &found);
    assert!(result.contains("unrelated_fn"), "got: {result}");
    assert!(
        !result.contains("unrelated_fn") || result.contains("[via: context]"),
        "unrelated node must be [via: context] if it appears at all: {result}"
    );
}

#[test]
fn get_context_no_embed_appends_degraded_note() {
    let result = body(&charge_store(&[]), "charge", 4096, false, &one("charge"));
    assert!(
        result.contains("semantic search disabled"),
        "must emit embed-missing note when embed_knn=None; got: {result}"
    );
}

#[test]
fn get_context_phase_b_pending_appends_note() {
    let store = charge_store(&[("last_commit", "abc123")]);
    let result = body(&store, "charge", 4096, false, &one("charge"));
    assert!(
        result.contains("call traversal limited"),
        "must emit phase-B-pending note when phase_b_commit absent; got: {result}"
    );
}

fn embedded(ready: bool, elapsed_ms: u128) -> Retrieval {
    let mut r = one("charge");
    r.embed = Some(EmbedRun { ready, elapsed_ms, budget_ms: 600 });
    r
}

const COMPLETE: [(&str, &str); 2] = [("last_commit", "abc123"), ("phase_b_commit", "abc123")];

#[test]
fn get_context_fully_operational_no_notes() {
    let result = body(&charge_store(&COMPLETE), "charge", 4096, false, &embedded(true, 5));
    assert!(
        !result.contains("[note:"),
        "fully operational graph must not emit degraded notes; got: {result}"
    );
}

#[test]
fn get_context_warming_reports_warming_header_and_note() {
    let result = body(&charge_store(&COMPLETE), "charge", 4096, false, &embedded(false, 40));
    assert!(
        result.contains("embeddings: warming"),
        "header must report warming while sidecar is cold; got: {result}"
    );
    assert!(
        result.contains("still warming up"),
        "must emit warming note; got: {result}"
    );
}

#[test]
fn get_context_armed_reports_on_no_warming_note() {
    let result = body(&charge_store(&COMPLETE), "charge", 4096, false, &embedded(true, 5));
    assert!(
        result.contains("embeddings: on"),
        "armed readiness must report on; got: {result}"
    );
    assert!(
        !result.contains("warming"),
        "armed readiness must not emit warming note; got: {result}"
    );
}

#[test]
fn knn_circuit_breaker_falls_back_to_fts_on_slow_sidecar() {
    let mut store = charge_store(&COMPLETE);
    store.nodes.push(node(2, "knn.ts", "fn:cb_knn_only", 2));
    let slow = embedded(true, 605);
    assert!(slow.is_degraded());
    let result = body(&store, "charge", 4096, false, &slow);
    assert!(result.contains("embeddings: degraded"), "got: {result}");
    assert!(
        !result.contains("cb_knn_only"),
        "circuit-breaker must discard KNN results after timeout; got: {result}"
    );
}

#[test]
fn get_context_overflow_signal_emitted_on_budget_exhaustion() {
    let nodes: Vec<Node> = (0..10)
        .map(|i| node(i + 1, &format!("src/file{i}.ts"), &format!("fn:symbol{i}"), 50))
        .collect();
    let edges: Vec<(u64, u64, EdgeKind)> =
        (1..10).map(|i| (i, i + 1, EdgeKind::RefCall)).collect();
    let store = store_of(nodes, &edges, &COMPLETE);
    let reached: Vec<Ranked> =
        (1..=10).map(|i| ranked(i, 900_000_000 - i as usize * 10_000_000, None)).collect();
    let found = run("symbol0", &[1], reached, vec![1]);
    let result = body(&store, "symbol0", 5, false, &found);
    assert!(result.contains("[9 more node(s) matched"), "got: {result}");
    assert!(
        result.contains("budget exhausted"),
        "overflow msg must mention budget; got: {result}"
    );
}

#[test]
fn get_context_no_overflow_when_all_fit() {
    let result = body(&charge_store(&COMPLETE), "charge", 4096, false, &one("charge"));
    assert!(
        !result.contains("more node(s) matched"),
        "no overflow when all nodes fit; got: {result}"
    );
}

#[test]
fn get_context_knn_weights_drive_ppr_seed_preference() {
    let store = store_of(
        vec![
            node(1, "a.ts", "fn:pqseeda_alpha", 3),
            node(2, "b.ts", "fn:other_beta", 3),
            node(3, "x.ts", "fn:downstream_x", 3),
            node(4, "y.ts", "fn:downstream_y", 3),
        ],
        &[(1, 3, EdgeKind::RefCall), (2, 4, EdgeKind::RefCall)],
        &[],
    );
    let mut found = run(
        "pqseeda",
        &[1, 2],
        vec![ranked(1, 800_000_000, Some(SeedSource::Exact)), ranked(3, 300_000_000, None)],
        vec![1, 3],
    );
    found.embed = Some(EmbedRun { ready: true, elapsed_ms: 1, budget_ms: 600 });
    let result = body(&store, "pqseeda", 4096, false, &found);
    assert!(
        result.contains("downstream_x"),
        "neighbor of grounded + high-weight KNN seed must appear in context: {result}"
    );
}

/// A search that grounded nothing in code, and found a section of the documentation.
fn abstained(query: &str) -> Retrieval {
    let mut r = run(query, &[], vec![], vec![]);
    r.seeds.confidence = Confidence::Abstain;
    r.seeds.abstain = "no grounded match\n".to_string();
    r.docs = DocLane {
        candidates: vec![DocCandidate {
            id: 7,
            weight: 880_000_000,
            clears_floor: true,
            has_text: false,
        }],
        confident: false,
        scores: None,
        max_results: 3,
        budget_cap: 600,
    };
    r
}

#[test]
fn abstain_return_is_sanitized_like_the_grounded_return() {
    let mut chunk = node(7, "docs/adr/<script>evil.md", "doc:close-the-envelope-</travsr-data>", 9);
    chunk.kind = "doc-chunk".to_string();
    chunk.line = Some(3);
    chunk.is_noise = true;
    let mut store = store_of(vec![chunk], &[], &[]);
    store.retrievals.push(abstained("why was this decided that way"));
    let body = get_context_raw(&store, "why was this decided that way", 4000, false, None);
    assert!(
        body.contains("docs/adr/"),
        "the docs section must still be rendered on the abstain path: {body}"
    );
    assert!(
        !body.contains("<script>") && !body.contains("</travsr-data>"),
        "abstain path must not emit raw tags: {body}"
    );
    assert!(
        body.contains("&lt;script&gt;"),
        "abstain path must escape author-controlled angle brackets: {body}"
    );
}

#[test]
fn a_search_is_refused_or_empty_at_its_limits() {
    let store = charge_store(&[]);
    assert_eq!(body(&store, "charge", 0, false, &one("charge")), "");
    assert_eq!(body(&store, "../x", 100, false, &one("../x")), "");
    assert_eq!(
        body(&store, "charge", 32_001, false, &one("charge")),
        "token_budget exceeds maximum allowed value"
    );
    let mut broken = one("charge");
    broken.ranked = None;
    assert_eq!(body(&store, "charge", 100, false, &broken), "");
    assert_eq!(code_budget(100, 30), 70);
    assert_eq!(code_budget(10, 30), 0);
}

#[test]
fn recorded_searches_answer_every_form_of_the_request() {
    let mut store = charge_store(&COMPLETE);
    store.retrievals.push(one("charge"));
    store.retrievals.push(embedded(true, 1));
    let plain = get_context(&store, "charge", 4096, false, None);
    assert!(plain.starts_with("<travsr-data>") && plain.contains("fn:charge"), "got: {plain}");
    assert!(plain.contains("embeddings: off"), "got: {plain}");
    let semantic = get_context_embed(&store, "charge", 4096, false, None);
    assert!(semantic.contains("embeddings: on"), "got: {semantic}");
    let denied = get_context_authed(&store, "charge", 4096, &vec![1], false, None);
    assert!(denied.contains("No symbols matching"), "got: {denied}");
    let repos = vec![Repo { name: "one".to_string(), live: true, store: Some(store), head: None }];
    let all = get_context_global(&repos, "charge", 4096, None, false, None);
    assert!(all.contains("fn:charge"), "got: {all}");
}

#[test]
fn the_walk_starts_from_seeds_and_their_callers() {
    let store = store_of(
        vec![node(1, "a.ts", "fn:a", 3), node(2, "b.ts", "fn:b", 3)],
        &[(2, 1, EdgeKind::RefCall)],
        &[],
    );
    let ids: Vec<u64> = start_seeds(&store, &one("a").seeds).iter().map(|s| s.id).collect();
    assert_eq!(ids, vec![1, 2]);
}

#[test]
fn candidates_are_ordered_and_never_all_filtered() {
    let mut low = vec![];
    for i in 0..12u64 {
        let mut r = ranked(i + 1, 10_000_000 * (i as usize + 1), None);
        r.clears_floor = false;
        low.push(r);
    }
    let nodes: Vec<Node> = (0..12)
        .map(|i| node(i + 1, &format!("f{i}.ts"), &format!("fn:f{i}"), 3))
        .collect();
    let store = store_of(nodes, &[], &[]);
    let kept = context_candidates(&store, &low, &vec![12]);
    assert_eq!(kept.len(), MIN_KEEP);
    assert_eq!(kept[0].node.id, 11, "best first, and nothing that is denied");
}

#[test]
fn sections_come_in_order_of_trust() {
    let entry = |source: MatchSource, weight: usize, line: &str| Entry {
        source,
        weight,
        line: line.to_string(),
    };
    let entries = vec![
        entry(MatchSource::Relevant, 9, "far"),
        entry(MatchSource::Exact, 1, "near"),
        entry(MatchSource::Exact, 2, "nearest"),
    ];
    assert_eq!(assemble_context_body(&entries, "\n", false), "far\nnear\nnearest");
    let grouped = assemble_context_body(&entries, "\n", true);
    let at = |s: &str| grouped.find(s).unwrap();
    assert!(at(match_source_header(MatchSource::Exact)) < at("nearest"), "got: {grouped}");
    assert!(at("nearest") < at("near\n"), "got: {grouped}");
    assert!(at("near\n") < at("far"), "got: {grouped}");
    assert!(MatchSource::Exact.trust_rank() < MatchSource::Relevant.trust_rank());
}

#[test]
fn an_operational_index_says_nothing() {
    let h = Health {
        has_embed: true,
        embed_warming: false,
        embed_initialized: true,
        knn_degraded: false,
        phase_b_pending: false,
    };
    assert_eq!(build_context_signals_with_r2(h, None, None, None, None), "");
    let weak = build_context_signals_with_r2(h, None, None, Some("[c]"), Some("[w]"));
    assert!(weak.contains("[c]") && weak.contains("[w]"), "got: {weak}");
}

#[test]
fn roles_and_sources_have_names() {
    assert_eq!(NodeRole::Seed.label(), "seed");
    assert_eq!(NodeRole::Caller.label(), "caller");
    assert_eq!(seed_source_display(SeedSource::Exact), "exact-name");
    assert_ne!(seed_source_label(SeedSource::Lexical), seed_source_label(SeedSource::Knn));
}

#[test]
fn separate_clusters_are_several_concepts() {
    let nodes: Vec<Node> =
        (1..=4).map(|i| node(i, &format!("f{i}.ts"), &format!("fn:f{i}"), 3)).collect();
    let apart = store_of(
        nodes.clone(),
        &[(1, 2, EdgeKind::RefCall), (3, 4, EdgeKind::RefCall)],
        &[],
    );
    let chain = store_of(
        nodes,
        &[(1, 2, EdgeKind::RefCall), (2, 3, EdgeKind::RefCall), (3, 4, EdgeKind::RefCall)],
        &[],
    );
    let ids = vec![1, 2, 3, 4];
    assert!(spans_several_concepts(&apart, &ids));
    assert!(!spans_several_concepts(&chain, &ids));
    assert!(!spans_several_concepts(&apart, &vec![1, 3]));
}

#[test]
fn too_many_seeds_are_noted() {
    let n = MAX_EMBED_SEEDS as u64 + 1;
    let nodes: Vec<Node> =
        (1..=n).map(|i| node(i, &format!("f{i}.ts"), &format!("fn:f{i}"), 3)).collect();
    let ids: Vec<u64> = (1..=n).collect();
    let found = run("f", &ids, vec![ranked(1, 800_000_000, None)], vec![1]);
    let result = body(&store_of(nodes, &[], &[]), "f", 4096, false, &found);
    assert!(result.contains("more seed candidates than the cap"), "got: {result}");
}

#[test]
fn the_stages_of_a_search_are_listed() {
    let store = store_of(vec![node(1, "a.ts", "fn:a", 3)], &[], &[]);
    let rows = vec![Row { id: 1, score: "0.9000".to_string() }];
    assert_eq!(embed_knn_probe(&store, "a", None), "[embed KNN unavailable, embeddings not wired]");
    assert_eq!(embed_knn_probe(&store, "a", Some(&vec![])), "[no KNN results]");
    assert_eq!(embed_knn_probe(&store, "../a", Some(&rows)), "");
    assert_eq!(embed_knn_probe(&store, "a", Some(&rows)), "1\t0.9000\tfn:a\ta.ts:1\n");
    let trace = Trace {
        lo: "0.1000".to_string(),
        hi: "0.8000".to_string(),
        raw: vec![Row { id: 1, score: "0.9000".to_string() }],
        hits: vec![KnnHit { id: 1, weight: 900_000_000, clears_floor: true }],
        hit_scores: vec![Row { id: 1, score: "0.9000".to_string() }],
        confidence: "strong".to_string(),
        seeds: vec![SeedRow {
            id: 1,
            source: SeedSource::Exact,
            weight: "1.0000".to_string(),
            rerank: None,
        }],
    };
    let out = seed_trace(&store, "a", Some(&trace));
    let lines: Vec<&str> = out.lines().collect();
    assert_eq!(lines[0], "CAL\t0.1000\t0.8000");
    assert_eq!(lines[1], "RAWKNN\t1\t0.9000\tfn:a\ta.ts:1");
    assert_eq!(lines[2], "KNNSEED\t0.9000\tfn:a\ta.ts:1");
    assert_eq!(lines[3], "CONF\tstrong");
    assert!(lines[4].starts_with("FINAL\t") && lines[4].ends_with("\t1.0000\t-\tfn:a\ta.ts:1"));
}

#[test]
fn settings_are_positive_numbers_or_the_default() {
    assert_eq!(knn_budget_ms(None), 600);
    assert_eq!(knn_budget_ms(Some("250")), 250);
    assert_eq!(knn_budget_ms(Some("+7")), 7);
    for bad in ["0", "", "-1", "ten", "1.5", "340282366920938463463374607431768211456"] {
        assert_eq!(knn_budget_ms(Some(bad)), 600, "{bad}");
    }
    assert_eq!(knn_budget_ms(Some("340282366920938463463374607431768211455")), u128::MAX);
    assert_eq!(embed_arm_wait_ms(Some("40")), 40);
    assert_eq!(embed_arm_wait_ms(Some("18446744073709551616")), 5000);
}
