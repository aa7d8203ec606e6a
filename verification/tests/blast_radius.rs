//! What a change affects.

use travsr_tools::blast::{
    get_blast_radius, get_blast_radius_global, get_blast_radius_raw, AnalysisMode,
};
use travsr_tools::global::Repo;
use travsr_tools::radius::MAX_BLAST_RADIUS_NODES;
use travsr_tools::store::{Edge, EdgeKind, Import, NameSearch, Node, Store};

fn node_in(id: u64, path: &str, language: &str, sig: &str, kind: &str) -> Node {
    Node {
        id,
        kind: kind.to_string(),
        signature: sig.to_string(),
        path: path.to_string(),
        corpus: String::new(),
        language: language.to_string(),
        package: String::new(),
        line: None,
        end_line: None,
        is_test: false,
        is_noise: false,
        token_cost: 10,
    }
}

fn make_node(id: u64, path: &str, sig: &str) -> Node {
    node_in(id, path, "typescript", sig, "function")
}

/// A store in which the file is searched for; import nodes resolve as given.
fn make_store(
    nodes: Vec<Node>,
    edges: Vec<(u64, u64, EdgeKind)>,
    file: &str,
    resolves: &[(u64, &str)],
) -> Store {
    let mut store = Store::new();
    let hits: Vec<Node> = nodes
        .iter()
        .filter(|n| n.path.contains(file) || n.signature.contains(file))
        .cloned()
        .collect();
    store.name_searches.push(NameSearch { term: file.to_string(), hits: Some(hits) });
    for n in nodes.iter().filter(|n| n.kind == "import") {
        store.imports.push(Import {
            id: n.id,
            signature: n.signature.clone(),
            language: n.language.clone(),
            path: n.path.clone(),
            resolves_to: resolves
                .iter()
                .filter(|(id, _)| *id == n.id)
                .map(|(_, f)| f.to_string())
                .collect(),
        });
    }
    store.nodes = nodes;
    store.edges = edges.into_iter().map(|(src, dst, kind)| Edge { src, dst, kind }).collect();
    store
}

#[test]
fn blast_radius_includes_source_file() {
    let store = make_store(vec![make_node(1, "a.ts", "fn:a")], vec![], "a.ts", &[]);
    let result = get_blast_radius(&store, "a.ts", AnalysisMode::TreeSitter, None);
    assert!(
        result.contains("a.ts"),
        "source file must appear in its own blast radius"
    );
}

#[test]
fn blast_radius_follows_incoming_edges() {
    let store = make_store(
        vec![make_node(1, "a.ts", "fn:a"), make_node(2, "b.ts", "fn:b")],
        vec![(2, 1, EdgeKind::RefCall)],
        "a.ts",
        &[],
    );
    let result = get_blast_radius(&store, "a.ts", AnalysisMode::TreeSitter, None);
    assert!(result.contains("a.ts"), "source file must be included");
    assert!(
        result.contains("b.ts"),
        "caller file must be included in blast radius"
    );
}

#[test]
fn blast_radius_follows_depends_edges() {
    let store = make_store(
        vec![make_node(1, "a.ts", "fn:a"), make_node(2, "b.ts", "fn:b")],
        vec![(2, 1, EdgeKind::Depends)],
        "a.ts",
        &[],
    );
    let result = get_blast_radius(&store, "a.ts", AnalysisMode::TreeSitter, None);
    assert!(result.contains("a.ts"), "source file must be included");
    assert!(
        result.contains("b.ts"),
        "file that imports the changed file must appear in blast radius"
    );
}

#[test]
fn blast_radius_handles_cycle() {
    let store = make_store(
        vec![make_node(1, "a.ts", "fn:a"), make_node(2, "b.ts", "fn:b")],
        vec![(2, 1, EdgeKind::RefCall), (1, 2, EdgeKind::RefCall)],
        "a.ts",
        &[],
    );
    let result = get_blast_radius(&store, "a.ts", AnalysisMode::TreeSitter, None);
    assert!(result.contains("a.ts"));
    assert!(result.contains("b.ts"));
}

#[test]
fn blast_radius_includes_go_copackage_siblings() {
    let a = node_in(1, "strategies/serverConfig.go", "go", "file", "file");
    let b = node_in(2, "strategies/roundRobinStrategy.go", "go", "file", "file");
    let c = node_in(3, "strategies/loadBalancer.go", "go", "file", "file");
    let store = make_store(
        vec![a, b, c],
        vec![
            (2, 1, EdgeKind::Depends),
            (3, 1, EdgeKind::Depends),
            (1, 2, EdgeKind::Depends),
            (3, 2, EdgeKind::Depends),
            (1, 3, EdgeKind::Depends),
            (2, 3, EdgeKind::Depends),
        ],
        "strategies/serverConfig.go",
        &[],
    );
    let result = get_blast_radius(
        &store,
        "strategies/serverConfig.go",
        AnalysisMode::TreeSitter,
        None,
    );
    assert!(
        result.contains("strategies/serverConfig.go"),
        "the file itself must appear in its blast radius"
    );
    assert!(
        result.contains("strategies/roundRobinStrategy.go"),
        "co-package sibling roundRobinStrategy.go must appear in blast radius"
    );
    assert!(
        result.contains("strategies/loadBalancer.go"),
        "co-package sibling loadBalancer.go must appear in blast radius"
    );
}

fn call_and_import_store() -> Store {
    make_store(
        vec![
            make_node(1, "a.ts", "fn:a"),
            make_node(2, "b.ts", "fn:b"),
            make_node(3, "c.ts", "fn:c"),
        ],
        vec![(2, 1, EdgeKind::RefCall), (3, 1, EdgeKind::Depends)],
        "a.ts",
        &[],
    )
}

#[test]
fn blast_radius_semantic_excludes_depends_only_files() {
    let result =
        get_blast_radius(&call_and_import_store(), "a.ts", AnalysisMode::Semantic, None);
    assert!(
        result.contains("b.ts"),
        "RefCall caller must appear in semantic blast radius"
    );
    assert!(
        !result.contains("c.ts"),
        "Depends-only file must NOT appear in semantic mode"
    );
}

#[test]
fn without_call_data_the_semantic_radius_is_empty() {
    let mut store = make_store(vec![make_node(1, "a.ts", "fn:a")], vec![], "a.ts", &[]);
    assert_eq!(get_blast_radius_raw(&store, "a.ts", AnalysisMode::Semantic), "");
    assert_eq!(get_blast_radius_raw(&store, "a.ts", AnalysisMode::TreeSitter), "a.ts");
    store.call_languages.push("typescript".to_string());
    assert_eq!(get_blast_radius_raw(&store, "a.ts", AnalysisMode::Semantic), "a.ts");
}

/// A search that finds so many files, the first of which is called from two more.
fn crowd(count: usize) -> Store {
    let mut store = Store::new();
    let hits: Vec<Node> = (0..count)
        .map(|i| make_node(i as u64 + 10, &format!("a/{i:06}.ts"), "fn:a"))
        .collect();
    store.name_searches.push(NameSearch { term: "a/".to_string(), hits: Some(hits) });
    store.nodes = vec![make_node(1, "z/one.ts", "fn:one"), make_node(2, "z/two.ts", "fn:two")];
    store.edges = vec![
        Edge { src: 2, dst: 10, kind: EdgeKind::RefCall },
        Edge { src: 1, dst: 10, kind: EdgeKind::RefCall },
    ];
    store
}

#[test]
fn the_radius_ends_the_instant_it_is_full() {
    let whole = get_blast_radius_raw(&crowd(3), "a/", AnalysisMode::TreeSitter);
    assert_eq!(whole, "a/000000.ts\na/000001.ts\na/000002.ts\nz/one.ts\nz/two.ts");
    let store = crowd(MAX_BLAST_RADIUS_NODES - 1);
    let cut = get_blast_radius_raw(&store, "a/", AnalysisMode::TreeSitter);
    assert_eq!(cut.lines().count(), 50_000);
    assert!(cut.ends_with("z/two.ts") && !cut.contains("z/one.ts"));
    let full = get_blast_radius_raw(&crowd(MAX_BLAST_RADIUS_NODES + 1), "a/", AnalysisMode::TreeSitter);
    assert_eq!(full.lines().count(), 50_001);
    assert!(!full.contains("z/"));
}

#[test]
fn blast_radius_tree_sitter_follows_both_edge_kinds() {
    let result =
        get_blast_radius(&call_and_import_store(), "a.ts", AnalysisMode::TreeSitter, None);
    assert!(
        result.contains("b.ts") && result.contains("c.ts"),
        "TreeSitter mode must follow both RefCall and Depends"
    );
}

fn import_chain_store() -> Store {
    make_store(
        vec![
            make_node(1, "src/target.ts", "fn:target"),
            make_node(2, "src/importer.ts", "fn:importer"),
            node_in(3, "src/importer.ts", "typescript", "import:./target", "import"),
        ],
        vec![(2, 3, EdgeKind::Depends), (3, 1, EdgeKind::ResolvesTo)],
        "src/target.ts",
        &[],
    )
}

#[test]
fn blast_radius_tree_sitter_follows_import_resolves_to_chain() {
    let result = get_blast_radius(
        &import_chain_store(),
        "src/target.ts",
        AnalysisMode::TreeSitter,
        None,
    );
    assert!(
        result.contains("src/importer.ts"),
        "importer reached via the Depends→import→ResolvesTo chain must appear, got: {result}"
    );
}

#[test]
fn blast_radius_semantic_excludes_import_resolves_to_chain() {
    let result = get_blast_radius(
        &import_chain_store(),
        "src/target.ts",
        AnalysisMode::Semantic,
        None,
    );
    assert!(
        !result.contains("src/importer.ts"),
        "semantic mode must not follow the import chain, got: {result}"
    );
}

#[test]
fn blast_radius_tree_sitter_follows_transitive_import_chain() {
    let store = make_store(
        vec![
            make_node(1, "src/c.ts", "fn:c"),
            make_node(2, "src/b.ts", "fn:b"),
            make_node(3, "src/a.ts", "fn:a"),
            node_in(4, "src/b.ts", "typescript", "import:./c", "import"),
            node_in(5, "src/a.ts", "typescript", "import:./b", "import"),
        ],
        vec![
            (2, 4, EdgeKind::Depends),
            (4, 1, EdgeKind::ResolvesTo),
            (3, 5, EdgeKind::Depends),
            (5, 2, EdgeKind::ResolvesTo),
        ],
        "src/c.ts",
        &[],
    );
    let result = get_blast_radius(&store, "src/c.ts", AnalysisMode::TreeSitter, None);
    assert!(
        result.contains("src/b.ts"),
        "direct importer b.ts must appear, got: {result}"
    );
    assert!(
        result.contains("src/a.ts"),
        "transitive importer a.ts must appear, got: {result}"
    );
}

fn ruby(id: u64, path: &str, sig: &str, kind: &str) -> Node {
    node_in(id, path, "ruby", sig, kind)
}

#[test]
fn blast_radius_tree_sitter_resolves_ruby_require_relative() {
    let store = make_store(
        vec![
            ruby(1, "ruby/src/animal.rb", "fn:animal", "function"),
            ruby(2, "ruby/src/cat.rb", "fn:cat", "function"),
            ruby(3, "ruby/src/dog.rb", "fn:dog", "function"),
            ruby(4, "ruby/src/cat.rb", "import:animal", "import"),
            ruby(5, "ruby/src/dog.rb", "import:animal", "import"),
        ],
        vec![(2, 4, EdgeKind::Depends), (3, 5, EdgeKind::Depends)],
        "ruby/src/animal.rb",
        &[(4, "ruby/src/animal.rb"), (5, "ruby/src/animal.rb")],
    );
    let result = get_blast_radius(&store, "ruby/src/animal.rb", AnalysisMode::TreeSitter, None);
    assert!(
        result.contains("ruby/src/cat.rb"),
        "cat.rb requires animal (Phase-2 RubyResolver) and must appear, got: {result}"
    );
    assert!(
        result.contains("ruby/src/dog.rb"),
        "dog.rb requires animal (Phase-2 RubyResolver) and must appear, got: {result}"
    );
}

#[test]
fn blast_radius_phase2_ignores_ruby_gem_require() {
    let store = make_store(
        vec![
            ruby(1, "ruby/src/json.rb", "fn:json", "function"),
            ruby(2, "ruby/src/cat.rb", "fn:cat", "function"),
            ruby(3, "ruby/src/cat.rb", "import:gem:json", "import"),
            ruby(4, "ruby/src/dog.rb", "fn:dog", "function"),
            ruby(5, "ruby/src/dog.rb", "import:json", "import"),
        ],
        vec![(2, 3, EdgeKind::Depends), (4, 5, EdgeKind::Depends)],
        "ruby/src/json.rb",
        &[(5, "ruby/src/json.rb")],
    );
    let result = get_blast_radius(&store, "ruby/src/json.rb", AnalysisMode::TreeSitter, None);
    assert!(
        !result.contains("ruby/src/cat.rb"),
        "cat.rb's `require 'json'` is load-path (import:gem:json) and must NOT \
         appear, got: {result}"
    );
    assert!(
        result.contains("ruby/src/dog.rb"),
        "dog.rb's `require_relative 'json'` (import:json) must still appear, \
         got: {result}"
    );
}

#[test]
fn blast_radius_phase2_is_transitive_across_hops() {
    let store = make_store(
        vec![
            ruby(1, "ruby/src/animal.rb", "fn:animal", "function"),
            ruby(2, "ruby/src/cat.rb", "fn:cat", "function"),
            ruby(3, "ruby/src/main.rb", "fn:main", "function"),
            ruby(4, "ruby/src/cat.rb", "import:animal", "import"),
            ruby(5, "ruby/src/main.rb", "import:cat", "import"),
        ],
        vec![(2, 4, EdgeKind::Depends), (3, 5, EdgeKind::Depends)],
        "ruby/src/animal.rb",
        &[(4, "ruby/src/animal.rb"), (5, "ruby/src/cat.rb")],
    );
    let result = get_blast_radius(&store, "ruby/src/animal.rb", AnalysisMode::TreeSitter, None);
    assert!(
        result.contains("ruby/src/cat.rb"),
        "direct importer cat.rb must appear, got: {result}"
    );
    assert!(
        result.contains("ruby/src/main.rb"),
        "transitive importer main.rb (main → cat → animal) must appear, got: {result}"
    );
}

#[test]
fn blast_radius_phase2_does_not_match_same_name_unrelated_file() {
    let store = make_store(
        vec![
            ruby(1, "ruby/src/animal.rb", "fn:animal", "function"),
            ruby(2, "ruby/src/cat.rb", "fn:cat", "function"),
            ruby(3, "ruby/src/cat.rb", "import:animal", "import"),
            ruby(4, "other/helper.rb", "fn:helper", "function"),
            ruby(5, "other/helper.rb", "import:animal", "import"),
        ],
        vec![(2, 3, EdgeKind::Depends), (4, 5, EdgeKind::Depends)],
        "ruby/src/animal.rb",
        &[(3, "ruby/src/animal.rb"), (5, "other/animal.rb")],
    );
    let result = get_blast_radius(&store, "ruby/src/animal.rb", AnalysisMode::TreeSitter, None);
    assert!(
        result.contains("ruby/src/cat.rb"),
        "sibling importer cat.rb must appear, got: {result}"
    );
    assert!(
        !result.contains("other/helper.rb"),
        "helper.rb requires its own other/animal.rb, must NOT appear for \
         ruby/src/animal.rb, got: {result}"
    );
}

#[test]
fn blast_radius_phase2_resolves_objective_c_import() {
    let objc = |id: u64, path: &str, sig: &str, kind: &str| {
        node_in(id, path, "objectivec", sig, kind)
    };
    let store = make_store(
        vec![
            objc(1, "app/Model.h", "type:Model", "type"),
            objc(2, "app/View.m", "type:View", "type"),
            objc(3, "app/View.m", "import:Model.h", "import"),
        ],
        vec![(2, 3, EdgeKind::Depends)],
        "app/Model.h",
        &[(3, "app/Model.h")],
    );
    let result = get_blast_radius(&store, "app/Model.h", AnalysisMode::TreeSitter, None);
    assert!(
        result.contains("app/View.m"),
        "View.m imports Model.h and must appear in its blast radius, got: {result}"
    );
}

#[test]
fn get_blast_radius_empty_result_becomes_note_when_stale() {
    let mut store = Store::new();
    store.name_searches.push(NameSearch {
        term: "src/missing.ts".to_string(),
        hits: Some(vec![]),
    });
    store.meta.push(("last_commit".to_string(), "abc".to_string()));
    store.meta.push(("phase_b_commit".to_string(), "abc".to_string()));
    store.meta.push(("phase_b_dirty".to_string(), "1".to_string()));
    let result = get_blast_radius(&store, "src/missing.ts", AnalysisMode::TreeSitter, None);
    assert!(
        result.contains("call-graph edges degraded"),
        "empty result must surface the stale note; got: {result}"
    );
}

#[test]
fn the_radius_in_several_repositories_is_marked() {
    let one = make_store(vec![make_node(1, "a.ts", "fn:a")], vec![], "a.ts", &[]);
    let two = make_store(vec![make_node(1, "a.ts", "fn:a")], vec![], "a.ts", &[]);
    let repos = vec![
        Repo { name: "one".to_string(), live: true, store: Some(one), head: None },
        Repo { name: "two".to_string(), live: true, store: Some(two), head: None },
        Repo { name: "gone".to_string(), live: false, store: None, head: None },
    ];
    let result = get_blast_radius_global(&repos, "a.ts", None, AnalysisMode::TreeSitter);
    assert!(result.contains("[one] a.ts"), "{result}");
    assert!(result.contains("[two] a.ts"), "{result}");
    assert!(!result.contains("gone"), "{result}");
}
