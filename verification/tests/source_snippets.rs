//! Source text of symbols.

use travsr_tools::sections::{format_node_line, omit_seed_via, MatchSource};
use travsr_tools::snippets::{
    char_cap_of, get_snippets, get_snippets_body, get_snippets_global, parse_symbol_tokens,
    strip_line_suffix, SnippetMode, SymbolToken, MAX_SIGNATURE_MATCHES,
};
use travsr_tools::global::Repo;
use travsr_tools::store::{ExactLookup, NameSearch, Node, SourceText, Store};

fn make_node(id: u64, path: &str, sig: &str, kind: &str, line: u32, end_line: u32) -> Node {
    Node {
        id,
        kind: kind.to_string(),
        signature: sig.to_string(),
        path: path.to_string(),
        corpus: "corpus".to_string(),
        language: "typescript".to_string(),
        package: String::new(),
        line: Some(line),
        end_line: Some(end_line),
        is_test: false,
        is_noise: false,
        token_cost: 10,
    }
}

fn make_fn_node(id: u64, path: &str, sig: &str, line: u32, end_line: u32) -> Node {
    make_node(id, path, sig, "function", line, end_line)
}

/// What the reader of source files gives for a range of lines.
fn source(path: &str, kind: &str, line: u32, end_line: u32, content: &str) -> SourceText {
    let cap = if kind == "class" { 15 } else { 60 };
    let lines: Vec<&str> = content.lines().collect();
    let from = line as usize - 1;
    let to = (end_line as usize).min(lines.len());
    let text = |to: usize| if from < to { Some(lines[from..to].join("\n")) } else { None };
    SourceText {
        path: path.to_string(),
        kind: kind.to_string(),
        line: Some(line),
        end_line: Some(end_line),
        full: text(to),
        capped: text(to.min(from + cap)),
        skeleton: text(to).map(|_| format!("[skeleton: {} lines]", to - from)),
        line_cap: cap,
    }
}

/// A store over files, in which signatures and names are looked up.
fn make_store(nodes: Vec<Node>, files: &[(&str, &str)], terms: &[&str]) -> Store {
    let mut store = Store::new();
    store.meta.push(("repo_root".to_string(), "/r".to_string()));
    let mut exact: Vec<String> = nodes.iter().map(|n| n.signature.clone()).collect();
    exact.extend(terms.iter().map(|t| t.to_string()));
    exact.sort();
    exact.dedup();
    for sig in &exact {
        let hits = |path: Option<&str>| -> Vec<Node> {
            let all = nodes.iter().filter(|n| n.signature == *sig);
            let there = |n: &&Node| path.is_some_and(|p| n.path == p);
            let (mut first, rest): (Vec<&Node>, Vec<&Node>) = all.partition(there);
            first.extend(rest);
            first.into_iter().cloned().collect()
        };
        store.exact_lookups.push(ExactLookup {
            signature: sig.clone(),
            path: None,
            hits: hits(None),
        });
        for (path, _) in files {
            store.exact_lookups.push(ExactLookup {
                signature: sig.clone(),
                path: Some(path.to_string()),
                hits: hits(Some(path)),
            });
        }
        store.name_searches.push(NameSearch {
            term: sig.clone(),
            hits: Some(nodes.iter().filter(|n| n.signature.contains(sig)).cloned().collect()),
        });
    }
    for n in &nodes {
        for (path, content) in files {
            if n.path == *path {
                let (l, e) = (n.line.unwrap(), n.end_line.unwrap());
                store.sources.push(source(path, &n.kind, l, e, content));
            }
        }
    }
    store.nodes = nodes;
    store
}

#[test]
fn get_snippets_body_returns_snippet_for_known_symbol() {
    let node = make_fn_node(1, "lib.ts", "fn:hello", 1, 3);
    let store =
        make_store(vec![node], &[("lib.ts", "function hello() {\n  return 'hi';\n}\n")], &[]);
    let result = get_snippets_body(&store, "fn:hello", 2000, SnippetMode::Auto);
    assert!(result.contains("function hello()"), "snippet body missing");
    assert!(result.contains("return 'hi'"), "snippet content missing");
    assert!(
        result.contains("1 symbols, 1 with snippets"),
        "footer missing"
    );
}

#[test]
fn get_snippets_body_resolves_plain_and_dotted_names() {
    let class_node = make_fn_node(1, "lib.ts", "class:ClassA", 1, 5);
    let fn_node = make_fn_node(2, "lib.ts", "method:ClassA.enableSupportForFeatureX", 2, 4);
    let store = make_store(
        vec![class_node, fn_node],
        &[(
            "lib.ts",
            "class ClassA {\n  enableSupportForFeatureX() {\n    return true;\n  }\n}\n",
        )],
        &["enableSupportForFeatureX", "ClassA", "ClassA.enableSupportForFeatureX", "unknownSymbol"],
    );
    let body = |symbols: &str| get_snippets_body(&store, symbols, 2000, SnippetMode::Auto);

    let exact = body("method:ClassA.enableSupportForFeatureX");
    assert!(
        exact.contains("enableSupportForFeatureX() {"),
        "exact sig failed"
    );

    let plain = body("enableSupportForFeatureX");
    assert!(
        plain.contains("enableSupportForFeatureX() {"),
        "plain function name failed"
    );

    let class = body("ClassA");
    assert!(class.contains("class ClassA"), "bare class name failed");

    let dotted = body("ClassA.enableSupportForFeatureX");
    assert!(
        dotted.contains("enableSupportForFeatureX() {"),
        "dotted symbol name failed"
    );

    let unknown = body("unknownSymbol");
    assert!(
        unknown.contains("No symbols matching the provided names found in the graph."),
        "unknown symbol failed"
    );
}

#[test]
fn full_mode_returns_whole_body_past_line_cap() {
    let mut src = String::from("class Big {\n");
    for i in 0..28 {
        src.push_str(&format!("  field{i} = {i};\n"));
    }
    src.push_str("  last = true;\n}\n");
    let class_node = make_node(1, "big.ts", "class:Big", "class", 1, 31);
    let store = make_store(vec![class_node], &[("big.ts", &src)], &[]);

    let full = get_snippets_body(&store, "class:Big", 8000, SnippetMode::Full);
    assert!(
        full.contains("last = true"),
        "full mode must include last line: {full}"
    );
    assert!(
        !full.contains("[skeleton:"),
        "full mode must not be a skeleton: {full}"
    );

    let auto = get_snippets_body(&store, "class:Big", 8000, SnippetMode::Auto);
    assert!(
        auto.contains("[skeleton:") || !auto.contains("last = true"),
        "auto mode caps/skeletonises the oversized class: {auto}"
    );
}

#[test]
fn skeleton_mode_forces_ast_for_small_fn() {
    let node = make_fn_node(1, "s.ts", "fn:small", 1, 3);
    let store = make_store(vec![node], &[("s.ts", "function small() {\n  return 1;\n}\n")], &[]);
    let skel = get_snippets_body(&store, "fn:small", 2000, SnippetMode::Skeleton);
    assert!(
        skel.contains("[skeleton:"),
        "skeleton mode must render the AST summary even for a small fn: {skel}"
    );
}

#[test]
fn get_snippets_body_no_repo_root_returns_hint() {
    let result = get_snippets_body(&Store::new(), "anything", 2000, SnippetMode::Auto);
    assert!(
        result.contains("travsr init"),
        "must prompt user to re-init: {result}"
    );
}

#[test]
fn get_snippets_body_budget_truncates_in_order() {
    let nodes = vec![
        make_fn_node(1, "a.ts", "fn:aaa", 1, 3),
        make_fn_node(2, "b.ts", "fn:bbb", 1, 3),
    ];
    let store = make_store(
        nodes,
        &[
            ("a.ts", "function aaa() {\n  return 1;\n}\n"),
            ("b.ts", "function bbb() {\n  return 2;\n}\n"),
        ],
        &[],
    );

    let tight = get_snippets_body(&store, "fn:aaa\nfn:bbb", 5, SnippetMode::Auto);
    assert!(
        tight.contains("aaa"),
        "first symbol must always be included even under a tiny budget: {tight}"
    );
    assert!(
        !tight.contains("bbb"),
        "second symbol must be excluded when budget exhausted: {tight}"
    );

    let ordered = get_snippets_body(&store, "fn:aaa\nfn:bbb", 20, SnippetMode::Auto);
    assert!(
        ordered.contains("aaa"),
        "first symbol must be included within budget: {ordered}"
    );
    assert!(
        !ordered.contains("bbb"),
        "second symbol must be excluded when budget exhausted: {ordered}"
    );
}

#[test]
fn get_snippets_body_missing_file_returns_metadata_only() {
    let node = make_fn_node(1, "missing.ts", "fn:ghost", 1, 5);
    let store = make_store(vec![node], &[], &[]);
    let result = get_snippets_body(&store, "fn:ghost", 2000, SnippetMode::Auto);
    assert!(
        result.contains("fn:ghost"),
        "metadata must appear: {result}"
    );
    assert!(
        !result.contains("---"),
        "no snippet separator when file missing: {result}"
    );
    assert!(
        result.contains("0 with snippets"),
        "snippet count must be 0: {result}"
    );
}

fn two_runs() -> Store {
    make_store(
        vec![
            make_fn_node(1, "a.ts", "fn:run", 1, 1),
            make_fn_node(2, "b.ts", "fn:run", 1, 1),
        ],
        &[
            ("a.ts", "function run() { /* a */ }\n"),
            ("b.ts", "function run() { /* b */ }\n"),
        ],
        &[],
    )
}

#[test]
fn get_snippets_duplicate_sig_bare_name_returns_all_snippets() {
    let result = get_snippets_body(&two_runs(), "fn:run", 2000, SnippetMode::Full);
    assert!(
        result.contains("a.ts"),
        "result must mention a.ts: {result}"
    );
    assert!(
        result.contains("b.ts"),
        "result must mention b.ts: {result}"
    );
    assert!(
        result.contains("/* a */"),
        "snippet from a.ts missing: {result}"
    );
    assert!(
        result.contains("/* b */"),
        "snippet from b.ts missing: {result}"
    );
    assert!(
        result.contains("2 symbols"),
        "footer must count 2 symbols: {result}"
    );
}

#[test]
fn get_snippets_duplicate_sig_full_header_resolves_correct_node() {
    let full_header = "fn:run (function) \u{2014} a.ts [package: mypkg]";
    let result = get_snippets_body(&two_runs(), full_header, 2000, SnippetMode::Full);
    assert!(
        result.contains("/* a */"),
        "must show snippet from a.ts: {result}"
    );
    assert!(
        !result.contains("/* b */"),
        "must NOT show snippet from b.ts: {result}"
    );
    assert!(
        !result.contains("definitions found"),
        "must not show disambiguation when path hint resolves uniquely: {result}"
    );
}

#[test]
fn get_snippets_full_header_from_format_node_line_round_trips() {
    let store = two_runs();
    let node_a = make_fn_node(1, "a.ts", "fn:run", 1, 1);

    let header = format_node_line(&node_a, "seed", Some("0.80"), None, None, false);
    assert!(
        header.contains("a.ts:1"),
        "sanity: real header must carry the line locator: {header}"
    );
    let result = get_snippets_body(&store, &header, 2000, SnippetMode::Full);
    assert!(
        result.contains("/* a */"),
        "must resolve a.ts from the real get_context header: {result}\nheader={header}"
    );
    assert!(
        !result.contains("/* b */"),
        "must NOT resolve the colliding b.ts: {result}"
    );

    let mut node_pkg = make_fn_node(1, "a.ts", "fn:run", 1, 1);
    node_pkg.package = "mypkg".to_string();
    let header_pkg = format_node_line(&node_pkg, "seed", Some("0.80"), None, None, false);
    assert!(header_pkg.contains("[package:"), "sanity: {header_pkg}");
    let result_pkg = get_snippets_body(&store, &header_pkg, 2000, SnippetMode::Full);
    assert!(
        result_pkg.contains("/* a */") && !result_pkg.contains("/* b */"),
        "package-present header must also resolve a.ts only: {result_pkg}"
    );
}

#[test]
fn grouped_mode_omits_via_on_seeds_keeps_it_on_relevant() {
    let seed = make_fn_node(1, "a.ts", "fn:run", 1, 1);

    let exact = omit_seed_via(true, MatchSource::Exact);
    let semantic = omit_seed_via(true, MatchSource::Semantic);
    assert!(exact && semantic, "seeds are hoisted in grouped mode");
    let seed_line = format_node_line(&seed, "seed", Some("0.80"), None, Some("exact-name"), exact);
    assert!(
        !seed_line.contains("[via:"),
        "grouped seed line must drop the via badge: {seed_line}"
    );
    assert!(
        !seed_line.contains("  "),
        "dropped badge must not leave a double space: {seed_line:?}"
    );
    assert!(
        seed_line.contains("[score: 0.80]"),
        "score still renders on a hoisted seed line: {seed_line}"
    );

    assert!(!omit_seed_via(true, MatchSource::Relevant));
    let rel_line = format_node_line(
        &seed,
        "caller",
        Some("0.10"),
        Some("fn:handler"),
        None,
        omit_seed_via(true, MatchSource::Relevant),
    );
    assert!(
        rel_line.contains("[via: caller of fn:handler]"),
        "relevant row must keep the source-seed badge: {rel_line}"
    );

    for ms in [MatchSource::Exact, MatchSource::Semantic, MatchSource::Relevant] {
        assert!(
            !omit_seed_via(false, ms),
            "grouping off never omits the badge"
        );
    }
    let flat = format_node_line(&seed, "seed", Some("0.80"), None, Some("exact-name"), false);
    assert_eq!(
        flat, "fn:run (function), a.ts:1 [via: seed · exact-name] [score: 0.80]",
        "flag-off render must match the frozen format byte-for-byte"
    );
}

#[test]
fn only_sections_of_seeds_leave_the_badge_out() {
    assert!(!omit_seed_via(true, MatchSource::Tests));
    assert!(!omit_seed_via(true, MatchSource::Docs));
}

#[test]
fn parse_symbol_tokens_covers_all_four_tiers() {
    let t0 = parse_symbol_tokens("nodeId:42");
    assert_eq!(t0.len(), 1);
    assert!(matches!(t0[0], SymbolToken::NodeId(42)));

    let full = "fn:run (function) \u{2014} src/cmd/serve.rs [package: server]";
    let t1 = parse_symbol_tokens(full);
    assert_eq!(t1.len(), 1);
    assert!(
        matches!(&t1[0], SymbolToken::FullHeader { sig, path }
            if sig == "fn:run" && path == "src/cmd/serve.rs"),
        "FullHeader parse failed: {:?}",
        t1[0]
    );

    let method = "fn:Iterator::next (method) \u{2014} std/iter.rs [package: std]";
    let t1m = parse_symbol_tokens(method);
    assert_eq!(t1m.len(), 1);
    assert!(
        matches!(&t1m[0], SymbolToken::FullHeader { sig, .. } if sig == "fn:Iterator::next")
    );

    let t2 = parse_symbol_tokens("src/main.rs:42");
    assert_eq!(t2.len(), 1);
    assert!(
        matches!(&t2[0], SymbolToken::PathLine { path, start, end }
            if path == "src/main.rs" && *start == 42 && end.is_none()),
        "PathLine parse failed: {:?}",
        t2[0]
    );

    let bare = |t: &SymbolToken, want: &str| matches!(t, SymbolToken::BareSig(s) if s == want);
    let t3 = parse_symbol_tokens("fn:run");
    assert_eq!(t3.len(), 1);
    assert!(bare(&t3[0], "fn:run"));

    let multi = parse_symbol_tokens("fn:run\nfn:stop");
    assert_eq!(multi.len(), 2);
    assert!(bare(&multi[0], "fn:run"));
    assert!(bare(&multi[1], "fn:stop"));

    let csv = parse_symbol_tokens("fn:run,fn:stop");
    assert_eq!(csv.len(), 2);

    let sparse = parse_symbol_tokens("fn:run,,\n,fn:stop");
    assert_eq!(sparse.len(), 2);
}

#[test]
fn a_line_number_is_purely_digits() {
    for text in ["src/main.rs:+42", "src/main.rs:1-+5", "src/main.rs:+1-5", "src/main.rs:", "src/main.rs:-5"] {
        let t = parse_symbol_tokens(text);
        assert_eq!(t.len(), 1);
        assert!(matches!(&t[0], SymbolToken::BareSig(s) if s == text), "got {:?}", t[0]);
    }
    let t = parse_symbol_tokens("src/main.rs:42-55");
    assert!(matches!(&t[0], SymbolToken::PathLine { start: 42, end: Some(55), .. }));
}

#[test]
fn get_snippets_unique_sig_still_returns_snippet() {
    let node = make_fn_node(1, "lib.ts", "fn:hello", 1, 3);
    let store =
        make_store(vec![node], &[("lib.ts", "function hello() {\n  return 'hi';\n}\n")], &[]);
    let result = get_snippets_body(&store, "fn:hello", 2000, SnippetMode::Auto);
    assert!(
        result.contains("function hello()"),
        "snippet body missing: {result}"
    );
    assert!(
        result.contains("return 'hi'"),
        "snippet content missing: {result}"
    );
    assert!(
        !result.contains("definitions found"),
        "must not show disambiguation for a unique symbol: {result}"
    );
}

#[test]
fn get_snippets_path_line_tier_reads_exact_range() {
    let src: String = (1u32..=10).map(|i| format!("line{i}\n")).collect();
    let mut store = make_store(vec![], &[], &[]);
    store.sources.push(source("src/exact.ts", "source-range", 3, 5, &src));
    let result = get_snippets_body(&store, "src/exact.ts:3-5", 2000, SnippetMode::Skeleton);
    assert!(
        result.contains("line3"),
        "line3 must be in result: {result}"
    );
    assert!(
        result.contains("line5"),
        "line5 must be in result: {result}"
    );
    assert!(!result.contains("line6"), "line6 must NOT appear: {result}");
}

#[test]
fn get_snippets_nodeid_tier_resolves_by_id() {
    let node = make_fn_node(77, "direct.ts", "fn:direct", 1, 3);
    let store =
        make_store(vec![node], &[("direct.ts", "function direct() {\n  return 99;\n}\n")], &[]);
    let result = get_snippets_body(&store, "nodeId:77", 2000, SnippetMode::Auto);
    assert!(result.contains("return 99"), "snippet missing: {result}");
    assert!(result.contains("fn:direct"), "header missing: {result}");
}

#[test]
fn get_snippets_bare_sig_capped_at_max_signature_matches() {
    let count = MAX_SIGNATURE_MATCHES + 2;
    let nodes: Vec<Node> = (0..count)
        .map(|i| make_fn_node(i as u64 + 1, &format!("pkg{i}/run.ts"), "fn:run", 1, 1))
        .collect();
    let store = make_store(nodes, &[], &[]);
    let result = get_snippets_body(&store, "fn:run", 8000, SnippetMode::Auto);
    assert!(
        result.contains(&format!("{MAX_SIGNATURE_MATCHES} symbols")),
        "must cap at {MAX_SIGNATURE_MATCHES} symbols, got: {result}"
    );
}

#[test]
fn an_inverted_range_shows_no_source() {
    let node = make_fn_node(1, "inv.ts", "fn:inv", 5, 2);
    let store = make_store(vec![node], &[("inv.ts", "line1\nline2\nline3\nline4\nline5\n")], &[]);
    let result = get_snippets_body(&store, "fn:inv", 2000, SnippetMode::Full);
    assert!(result.contains("0 with snippets"), "got: {result}");
}

#[test]
fn modes_and_budgets_are_read_from_arguments() {
    assert!(matches!(SnippetMode::from_arg("full"), SnippetMode::Full));
    assert!(matches!(SnippetMode::from_arg("skeleton"), SnippetMode::Skeleton));
    assert!(matches!(SnippetMode::from_arg("else"), SnippetMode::Auto));
    assert_eq!(char_cap_of(10), 80);
    assert_eq!(char_cap_of(1_000_000), 1_024_000);
    assert_eq!(strip_line_suffix("src/a.rs:12"), "src/a.rs");
    assert_eq!(strip_line_suffix("src/a.rs"), "src/a.rs");
}

#[test]
fn snippets_come_in_the_envelope() {
    let store = two_runs();
    let out = get_snippets(&store, "fn:run", 2000, SnippetMode::Full);
    assert!(out.starts_with("<travsr-data>") && out.ends_with("</travsr-data>"), "got: {out}");
    let repos = vec![Repo { name: "one".to_string(), live: true, store: Some(store), head: None }];
    let all = get_snippets_global(&repos, "fn:run", 2000, None, SnippetMode::Full);
    assert!(all.contains("/* a */"), "got: {all}");
}
