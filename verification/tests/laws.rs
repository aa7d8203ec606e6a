//! The laws of the library, on concrete values.

use travsr_tools::blast::{get_blast_radius_raw, AnalysisMode};
use travsr_tools::global::Repo;
use travsr_tools::graph::{walk, WalkRequest};
use travsr_tools::names::{has_any_container, has_qualified_container, split_dotted};
use travsr_tools::overview::package_drill_graph;
use travsr_tools::picks::context_candidates;
use travsr_tools::refs::resolve_symbol_nodes;
use travsr_tools::regions::{dependents_of, repo_map_region_of, repo_region_dep_edges, repo_regions};
use travsr_tools::retrieval::Ranked;
use travsr_tools::sanitize::{
    is_valid_arg, sanitize_for_mcp, sanitize_mcp_body_with_limit, validate_mcp_arg,
    validate_mcp_list_arg, validate_mcp_pattern_arg, Rejection, MAX_ARG_BYTES, MAX_LIST_BYTES,
};
use travsr_tools::sections::format_node_line;
use travsr_tools::snippets::{parse_symbol_tokens, SymbolToken};
use travsr_tools::stats::{get_graph_stats, get_graph_stats_global};
use travsr_tools::store::{
    Edge, EdgeKind, ExactLookup, NameSearch, Node, Step, Steps, Store,
};

fn node(id: u64, path: &str, sig: &str, kind: &str) -> Node {
    Node {
        id,
        kind: kind.to_string(),
        signature: sig.to_string(),
        path: path.to_string(),
        corpus: String::new(),
        language: "rust".to_string(),
        package: String::new(),
        line: Some(7),
        end_line: None,
        is_test: false,
        is_noise: false,
        token_cost: 10,
    }
}

fn strings(v: &[&str]) -> Vec<String> {
    v.iter().map(|s| s.to_string()).collect()
}

#[test]
fn the_semantic_radius_lies_within_the_structural_one() {
    let mut store = Store::new();
    store.nodes = vec![
        node(1, "a.rs", "fn:a", "function"),
        node(2, "b.rs", "fn:b", "function"),
        node(3, "c.rs", "fn:c", "function"),
    ];
    store.edges = vec![
        Edge { src: 2, dst: 1, kind: EdgeKind::RefCall },
        Edge { src: 3, dst: 1, kind: EdgeKind::Depends },
    ];
    let hits = Some(vec![store.nodes[0].clone()]);
    store.name_searches.push(NameSearch { term: "a.rs".to_string(), hits });
    let narrow = get_blast_radius_raw(&store, "a.rs", AnalysisMode::Semantic);
    let wide = get_blast_radius_raw(&store, "a.rs", AnalysisMode::TreeSitter);
    for line in narrow.lines() {
        assert!(wide.lines().any(|l| l == line), "{line} is missing in {wide}");
    }
    assert!(wide.contains("c.rs") && !narrow.contains("c.rs"));
}

#[test]
fn definitions_are_listed_once() {
    let mut store = Store::new();
    let n = node(1, "a.rs", "fn:a", "function");
    store.exact_lookups.push(ExactLookup {
        signature: "fn:a".to_string(),
        path: None,
        hits: vec![n.clone(), n],
    });
    assert_eq!(resolve_symbol_nodes(&store, "fn:a", None).len(), 1);
}

#[test]
fn a_member_is_found_under_its_own_container_only() {
    assert!(has_qualified_container("swift::ClassC.shared", "ClassC", "shared"));
    assert!(has_qualified_container("scip:x/ClassC#shared.", "ClassC", "shared"));
    assert!(!has_qualified_container("swift::AppConfig.shared", "Config", "shared"));
    assert!(has_qualified_container("AppConfig.shared:Config.shared", "Config", "shared"));
    assert!(has_qualified_container("AppConfig#shared Config#shared", "Config", "shared"));
    assert!(has_any_container("method:A.b") && !has_any_container("var:b"));
    assert_eq!(split_dotted("A.b.c"), Some(("A.b".to_string(), "c".to_string())));
    assert_eq!(split_dotted("abc"), None);
}

#[test]
fn every_file_lies_in_a_region() {
    let files = strings(&["src/a.rs", "src/b.rs", "docs/x.md", "README.md"]);
    let regions = repo_regions(&files);
    for f in &files {
        let r = repo_map_region_of(f, &regions);
        assert!(r == "(root)" || f.starts_with(&format!("{r}/")), "{f} in {r}");
        assert!(regions.contains(&r), "{r} is missing in {regions:?}");
    }
}

#[test]
fn regions_are_listed_longest_first_without_repetition() {
    let files = strings(&["src/a.rs", "lib/b.rs", "docs/x.md", "README.md", "src/c.rs", "(root)/d.rs"]);
    let regions = repo_regions(&files);
    assert_eq!(regions, strings(&["(root)", "docs", "lib", "src"]));
    assert_eq!(repo_map_region_of("(root)/d.rs", &regions), "(root)");
}

#[test]
fn a_list_of_symbols_reads_as_its_parts() {
    let show = |s: &str| format!("{:?}", parse_symbol_tokens(s));
    let joined = |a: &str, b: &str| {
        let mut v = parse_symbol_tokens(a);
        v.extend(parse_symbol_tokens(b));
        format!("{v:?}")
    };
    let parts = ["fn:run", "src/main.rs:42, nodeId:7", "  ", "fn:a (function)\nfn:b", "src/x.rs:1-2"];
    for a in parts {
        for b in parts {
            assert_eq!(show(&format!("{a}\n{b}")), joined(a, b));
            assert_eq!(show(&format!("{a},{b}")), joined(a, b));
        }
    }
    assert_eq!(parse_symbol_tokens("a, ,b\n\n c ,").len(), 3);
    assert_eq!(parse_symbol_tokens("fn:run (function), src/a.rs:3").len(), 1);
}

#[test]
fn a_crowded_directory_is_split() {
    let mut files = Vec::new();
    for part in ["one", "two"] {
        for i in 0..4 {
            files.push(format!("crates/{part}/src/f{i}.rs"));
        }
    }
    let regions = repo_regions(&files);
    assert!(regions.contains(&"crates/one".to_string()), "got {regions:?}");
    assert!(!regions.contains(&"crates".to_string()), "got {regions:?}");
}

#[test]
fn dependents_are_counted_through_others() {
    let pairs: Vec<(String, String)> = vec![
        ("app/x.rs".to_string(), "lib/y.rs".to_string()),
        ("lib/y.rs".to_string(), "core/z.rs".to_string()),
        ("core/z.rs".to_string(), "core/w.rs".to_string()),
        ("app/v.rs".to_string(), "lib/u.rs".to_string()),
    ];
    let names = strings(&["app", "core", "lib"]);
    let edges = repo_region_dep_edges(&pairs, &names, &names);
    assert_eq!(edges.len(), 2, "got {edges:?}");
    assert_eq!(dependents_of(&edges, "core"), 2);
    assert_eq!(dependents_of(&edges, "lib"), 1);
    assert_eq!(dependents_of(&edges, "app"), 0);
}

#[test]
fn a_walk_over_a_cycle_ends() {
    let mut store = Store::new();
    store.nodes =
        vec![node(1, "a.rs", "fn:a", "function"), node(2, "b.rs", "fn:b", "function")];
    for (from, next) in [(1, 2), (2, 1)] {
        for first in [false, true] {
            let steps = vec![Step { kind: EdgeKind::RefCall, next, expand: true }];
            store.steps.push(Steps { from, callers: false, first, steps });
        }
    }
    let roots = vec![store.nodes[0].clone()];
    let q = WalkRequest { direction: "deps", depth: 4, kind: "", budget: 0 };
    let d = walk(&store, &q, &roots);
    assert_eq!(d.nodes.len(), 2);
    let tight = WalkRequest { direction: "deps", depth: 4, kind: "", budget: 1 };
    let d = walk(&store, &tight, &roots);
    assert_eq!(d.nodes.len(), 1, "the first root survives any budget");
}

#[test]
fn a_link_is_drawn_once() {
    let mut store = Store::new();
    store.nodes = vec![node(1, "p/a.rs", "p/a.rs", "file"), node(2, "p/b.rs", "p/b.rs", "file")];
    for _ in 0..3 {
        store.dep_pairs.push(("p/a.rs".to_string(), "p/b.rs".to_string()));
    }
    let raw = package_drill_graph(&store, "p/");
    let v: serde_json::Value = serde_json::from_str(&raw).unwrap();
    assert_eq!(v["edges"].as_array().unwrap().len(), 1, "got {raw}");
}

#[test]
fn answers_push_out_files() {
    let ranked = |id: u64| Ranked {
        id,
        weight: 1_000_000 * id as usize,
        clears_floor: true,
        score: "0.50".to_string(),
        shown_weight: 1,
        shown: "0.50".to_string(),
        source: None,
    };
    let mut store = Store::new();
    store.nodes = vec![node(1, "a.rs", "fn:a", "function"), node(2, "a.rs", "file", "file")];
    let hits = vec![ranked(1), ranked(2)];
    let kept = context_candidates(&store, &hits, &vec![]);
    assert_eq!(kept.len(), 1);
    assert_eq!(kept[0].node.id, 1);
    let only_file = context_candidates(&store, &hits, &vec![1]);
    assert_eq!(only_file.len(), 1, "the filter never empties the list");
    assert_eq!(only_file[0].node.id, 2);
}

#[test]
fn the_totals_of_one_repository_are_its_own() {
    let mut store = Store::new();
    store.node_total = Some(5);
    store.edge_total = Some(9);
    let own = get_graph_stats(&store);
    let repos =
        vec![Repo { name: "one".to_string(), live: true, store: Some(store), head: None }];
    let all = get_graph_stats_global(&repos, Some("one"));
    assert!(own.starts_with(&all), "{own} against {all}");
}

#[test]
fn an_answer_is_clean_and_bounded() {
    let dirty = "a<b>\u{1b}\u{202e}c\n\td";
    assert_eq!(sanitize_mcp_body_with_limit(dirty, 100), "a&lt;b&gt;c\n\td");
    assert_eq!(sanitize_mcp_body_with_limit("ééé", 3), "é");
    assert!(sanitize_for_mcp(&"x".repeat(10_000)).len() <= 4096 + 27);
}

#[test]
fn every_rule_for_arguments_has_its_verdict() {
    assert_eq!(validate_mcp_arg("src/a.rs"), Ok(()));
    assert_eq!(validate_mcp_arg(""), Err(Rejection::Empty));
    assert_eq!(validate_mcp_arg(&"x".repeat(MAX_ARG_BYTES + 1)), Err(Rejection::TooLong));
    assert_eq!(validate_mcp_arg("a\0b"), Err(Rejection::NulByte));
    assert_eq!(validate_mcp_arg("/etc"), Err(Rejection::AbsolutePath));
    assert_eq!(validate_mcp_arg("a/../b"), Err(Rejection::ParentEscape));
    assert_eq!(validate_mcp_arg("100%"), Err(Rejection::PercentEncoding));
    assert_eq!(validate_mcp_pattern_arg("100%"), Ok(()));
    assert_eq!(validate_mcp_pattern_arg("a\0"), Err(Rejection::NulByte));
    assert_eq!(validate_mcp_list_arg(&"x".repeat(MAX_LIST_BYTES + 1)), Err(Rejection::TooLong));
    assert_eq!(validate_mcp_list_arg("a,../b"), Err(Rejection::ParentEscape));
    assert!(is_valid_arg("a..b"));
}

#[test]
fn a_printed_line_can_be_asked_for() {
    let mut n = node(1, "src/cmd/serve.rs", "fn:Server::run", "function");
    n.package = "server".to_string();
    let line = format_node_line(&n, "seed", Some("0.80"), None, Some("exact-name"), false);
    let tokens = parse_symbol_tokens(&line);
    assert_eq!(tokens.len(), 1, "got {tokens:?}");
    assert!(
        matches!(&tokens[0], SymbolToken::FullHeader { sig, path }
            if sig == "fn:Server::run" && path == "src/cmd/serve.rs"),
        "got {tokens:?}"
    );
}
