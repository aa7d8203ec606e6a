//! Languages, counts, synonyms and the orientation map.

use travsr_tools::global::Repo;
use travsr_tools::lang::{extension_of, find_lang, get_lang_status, get_lang_status_global};
use travsr_tools::registry::{
    repos_list, repos_prune, repos_remove, synonym_add, synonym_list, synonym_remove,
    synonym_remove_term, synonym_reply, synonym_reset, synonym_set, RegistryEntry, SynonymChange,
    SynonymStep, UnregisterResult,
};
use travsr_tools::regions::{repo_map_dir_of, repo_map_is_local_path};
use travsr_tools::repo_map::{get_repo_map, get_repo_map_global, get_repo_map_raw};
use travsr_tools::stats::{get_graph_stats, get_graph_stats_global, repo_languages, totals_fit};
use travsr_tools::store::{Edge, EdgeKind, Node, Store};

fn make_kind(id: u64, path: &str, sig: &str, kind: &str) -> Node {
    Node {
        id,
        kind: kind.to_string(),
        signature: sig.to_string(),
        path: path.to_string(),
        corpus: String::new(),
        language: "typescript".to_string(),
        package: String::new(),
        line: None,
        end_line: None,
        is_test: false,
        is_noise: false,
        token_cost: 10,
    }
}

fn make_node(id: u64, path: &str, sig: &str) -> Node {
    make_kind(id, path, sig, "function")
}

/// A store with its counts, the languages that have calls and the file dependencies filled in.
fn make_store(nodes: Vec<Node>, edges: &[(u64, u64, EdgeKind)]) -> Store {
    let mut store = Store::new();
    store.node_total = Some(nodes.len() as u64);
    store.edge_total = Some(edges.len() as u64);
    store.schema_version = Some(7);
    for (src, dst, kind) in edges {
        let s = nodes.iter().find(|n| n.id == *src).unwrap();
        let d = nodes.iter().find(|n| n.id == *dst).unwrap();
        store.edges.push(Edge { src: *src, dst: *dst, kind: *kind });
        store.dep_pairs.push((s.path.clone(), d.path.clone()));
        if *kind == EdgeKind::RefCall {
            store.has_calls = true;
            store.call_languages.push(s.language.clone());
        }
    }
    store.nodes = nodes;
    store
}

fn repo(name: &str, store: Store) -> Repo {
    Repo { name: name.to_string(), live: true, store: Some(store), head: None }
}

// ---- languages

#[test]
fn get_lang_status_known_extension_semantic_unavailable() {
    let store = make_store(vec![], &[]);
    let json = get_lang_status(&store, "src/main.ts");
    assert!(json.contains(r#""language":"typescript""#));
    assert!(json.contains(r#""builtin":true"#));
    assert!(json.contains(r#""semantic_available":false"#));
}

#[test]
fn get_lang_status_returns_semantic_available_true_after_refcall_insert() {
    let n1 = make_node(1, "a.ts", "fn:a");
    let n2 = make_node(2, "b.ts", "fn:b");
    let store = make_store(vec![n1, n2], &[(1, 2, EdgeKind::RefCall)]);
    let json = get_lang_status(&store, "a.ts");
    assert!(json.contains(r#""semantic_available":true"#));
    assert!(json.contains(r#""install_hint":"""#));
}

#[test]
fn get_lang_status_unknown_extension_returns_unknown() {
    let store = make_store(vec![], &[]);
    let json = get_lang_status(&store, "Makefile");
    assert!(json.contains(r#""language":"unknown""#));
    assert!(json.contains(r#""semantic_available":false"#));
}

#[test]
fn get_lang_status_non_builtin_shows_install_hint() {
    let store = make_store(vec![], &[]);
    let json = get_lang_status(&store, "main.go");
    assert!(json.contains(r#""language":"go""#));
    assert!(json.contains(r#""builtin":false"#));
    assert!(json.contains(r#""semantic_available":false"#));
    assert!(json.contains("travsr lang install go"));
}

#[test]
fn get_lang_status_builtin_shows_underlying_tool_hint() {
    let store = make_store(vec![], &[]);
    let json = get_lang_status(&store, "src/main.rs");
    assert!(json.contains(r#""language":"rust""#));
    assert!(json.contains(r#""builtin":true"#));
    assert!(json.contains("rust-analyzer"));
}

#[test]
fn an_extension_is_what_follows_the_last_dot() {
    assert_eq!(extension_of("src/a.test.ts"), ".ts");
    assert_eq!(extension_of("Makefile"), "");
    assert_eq!(find_lang(".rs").unwrap().language, "rust");
    assert!(find_lang(".zzz").is_none());
}

#[test]
fn the_status_over_all_repositories_is_that_of_the_first() {
    let one = make_store(vec![], &[]);
    let repos = vec![repo("one", one)];
    let all = get_lang_status_global(&repos, "src/main.rs", None);
    assert!(all.contains(r#""language":"rust""#), "got: {all}");
    let none = get_lang_status_global(&vec![], "src/main.rs", None);
    assert!(none.contains(r#""language":"unknown""#), "got: {none}");
}

// ---- counts

#[test]
fn get_graph_stats_empty_graph() {
    let store = make_store(vec![], &[]);
    let out = get_graph_stats(&store);
    assert!(out.starts_with("nodes: 0\nedges: 0"), "got: {out}");
    assert!(out.contains("schema_version: "), "got: {out}");
}

#[test]
fn get_graph_stats_counts_match_store() {
    let a = make_node(1, "a.ts", "fn:a");
    let b = make_node(2, "b.ts", "fn:b");
    let store = make_store(vec![a, b], &[(1, 2, EdgeKind::Depends)]);
    let out = get_graph_stats(&store);
    assert!(out.starts_with("nodes: 2\nedges: 1"), "got: {out}");
    assert!(out.contains("schema_version: "), "got: {out}");
}

#[test]
fn counts_add_up_over_the_repositories() {
    let one = make_store(vec![make_node(1, "a.ts", "fn:a")], &[]);
    let two = make_store(
        vec![make_node(1, "a.ts", "fn:a"), make_node(2, "b.ts", "fn:b")],
        &[(1, 2, EdgeKind::Depends)],
    );
    let out = get_graph_stats_global(&vec![repo("one", one), repo("two", two)], None);
    assert!(out.contains("nodes: 3\nedges: 1"), "got: {out}");
}

#[test]
fn languages_are_listed_with_their_counts() {
    let mut store = Store::new();
    assert_eq!(repo_languages(&store), "");
    store.languages = Some(vec![("rust".to_string(), 12), ("go".to_string(), 3)]);
    let out = repo_languages(&store);
    assert!(out.contains("rust") && out.contains("12"), "got: {out}");
    assert!(out.find("rust").unwrap() < out.find("go").unwrap(), "got: {out}");
}

// ---- synonyms

/// The table of synonyms beside the library: what a change does to it, and the reply.
fn perform(store: &mut Store, step: SynonymStep) -> String {
    let change = match step {
        SynonymStep::Answer(s) => return s,
        SynonymStep::Apply(c) => c,
    };
    let mut table = store.synonyms.take().unwrap_or_default();
    match change {
        SynonymChange::Add { term, alias } => {
            if table.len() >= 200 {
                store.synonyms = Some(table);
                return synonym_reply(Err("synonym table holds at most 200 rows".to_string()));
            }
            table.push((term, alias));
        }
        SynonymChange::Replace { term, aliases } => {
            table.retain(|(t, _)| *t != term);
            table.extend(aliases.into_iter().map(|a| (term.clone(), a)));
        }
        SynonymChange::Remove { term, alias } => {
            table.retain(|(t, a)| !(*t == term && *a == alias));
        }
        SynonymChange::RemoveTerm { term } => table.retain(|(t, _)| *t != term),
        SynonymChange::Reset => {
            table = vec![("auth".to_string(), "login".to_string())];
        }
    }
    store.synonyms = Some(table);
    synonym_reply(Ok(()))
}

#[test]
fn synonym_add_then_list_roundtrip() {
    let mut store = make_store(vec![], &[]);
    assert_eq!(perform(&mut store, synonym_add("zzpayment", "zzcharge")), "ok");
    let list = synonym_list(&store);
    assert!(list.contains("zzpayment => zzcharge"), "got: {list}");
}

#[test]
fn synonym_set_replaces_all_aliases() {
    let mut store = make_store(vec![], &[]);
    perform(&mut store, synonym_add("zzauth", "zzlogin"));
    perform(&mut store, synonym_add("zzauth", "zzsignin"));
    assert_eq!(perform(&mut store, synonym_set("zzauth", "zzsession")), "ok");
    let list = synonym_list(&store);
    assert!(list.contains("zzauth => zzsession"), "got: {list}");
    assert!(
        !list.contains("zzauth => zzlogin"),
        "old alias must be gone: {list}"
    );
}

#[test]
fn synonym_remove_term_clears_all() {
    let mut store = make_store(vec![], &[]);
    perform(&mut store, synonym_add("zzdb", "zzdatabase"));
    perform(&mut store, synonym_add("zzdb", "zzstore"));
    assert_eq!(perform(&mut store, synonym_remove_term("zzdb")), "ok");
    let list = synonym_list(&store);
    assert!(
        !list.contains("zzdb => "),
        "all zzdb aliases must be gone: {list}"
    );
}

#[test]
fn synonym_remove_drops_one_pair() {
    let mut store = make_store(vec![], &[]);
    perform(&mut store, synonym_set("zzdb", "zzdatabase,zzstore"));
    assert_eq!(perform(&mut store, synonym_remove("zzdb", "zzstore")), "ok");
    assert_eq!(synonym_list(&store), "zzdb => zzdatabase");
    assert_eq!(perform(&mut store, synonym_remove("../x", "y")), "invalid input");
    assert_eq!(perform(&mut store, synonym_remove_term("../x")), "invalid input");
}

#[test]
fn synonym_set_csv_splits_and_trims() {
    let mut store = make_store(vec![], &[]);
    assert_eq!(
        perform(&mut store, synonym_set("zzk8s", " zzkube , zzkubernetes ,")),
        "ok"
    );
    let list = synonym_list(&store);
    assert!(list.contains("zzk8s => zzkube"), "got: {list}");
    assert!(list.contains("zzk8s => zzkubernetes"), "got: {list}");
}

#[test]
fn synonym_add_rejects_path_traversal() {
    let mut store = make_store(vec![], &[]);
    let result = perform(&mut store, synonym_add("../etc/passwd", "x"));
    assert_eq!(result, "invalid input");
    assert!(!synonym_list(&store).contains("../etc/passwd"));
}

#[test]
fn synonym_set_rejects_invalid_alias_wholesale() {
    let mut store = make_store(vec![], &[]);
    let result = perform(&mut store, synonym_set("zzterm", "zzgood,../bad"));
    assert_eq!(result, "invalid input");
    let list = synonym_list(&store);
    assert!(!list.contains("zzterm => zzgood"), "got: {list}");
}

#[test]
fn synonym_add_over_cap_returns_error_message() {
    let mut store = make_store(vec![], &[]);
    let mut last = String::new();
    for i in 0..300 {
        last = perform(&mut store, synonym_add("zzfill", &format!("zza{i}")));
        if last != "ok" {
            break;
        }
    }
    assert_ne!(last, "ok", "the cap must eventually reject an add");
    assert!(last.contains("200"), "cap message expected, got: {last}");
}

#[test]
fn synonym_reset_restores_defaults() {
    let mut store = make_store(vec![], &[]);
    perform(&mut store, synonym_add("zzcustom", "zzalias"));
    assert_eq!(perform(&mut store, synonym_reset()), "ok");
    let list = synonym_list(&store);
    assert!(
        !list.contains("zzcustom => zzalias"),
        "custom pair must be cleared: {list}"
    );
    assert!(!list.is_empty(), "defaults must be re-seeded after reset");
}

// ---- the registry

#[test]
fn registered_repositories_are_listed() {
    assert_eq!(repos_list(&None), "");
    let one = RegistryEntry {
        key: "k".to_string(),
        display: "shop".to_string(),
        path: "/data/shop.db".to_string(),
        exists: true,
    };
    assert_eq!(repos_list(&Some(vec![one])), "shop\t/data/shop.db\t1");
}

#[test]
fn pruning_and_removing_say_what_happened() {
    assert_eq!(repos_prune(&None), "error");
    assert_eq!(repos_prune(&Some(vec![])), "pruned: 0");
    assert_eq!(
        repos_prune(&Some(vec!["a".to_string(), "b".to_string()])),
        "pruned: 2\na\nb"
    );
    assert_eq!(repos_remove(&UnregisterResult::Removed), "ok");
    assert_eq!(repos_remove(&UnregisterResult::NotFound), "not found");
    assert_eq!(repos_remove(&UnregisterResult::Failed), "error");
    let paths = vec!["/x".to_string(), "/y".to_string()];
    assert_eq!(repos_remove(&UnregisterResult::Ambiguous(paths)), "ambiguous: /x, /y");
}

// ---- the orientation map

#[test]
fn directories_and_local_paths_are_told() {
    assert_eq!(repo_map_dir_of("src/a/b.ts"), "src/a");
    assert_eq!(repo_map_dir_of("b.ts"), "(root)");
    assert!(repo_map_is_local_path("src/b.ts"));
    assert!(!repo_map_is_local_path("../b.ts"));
    assert!(!repo_map_is_local_path("<cgo>/b.go"));
}

#[test]
fn get_repo_map_groups_by_file() {
    let a = make_node(1, "src/a.ts", "fn:a");
    let b = make_node(2, "src/b.ts", "fn:b");
    let store = make_store(vec![a, b], &[]);
    let result = get_repo_map(&store);
    assert!(result.contains("src/a.ts"), "a.ts must appear in repo map");
    assert!(result.contains("src/b.ts"), "b.ts must appear in repo map");
}

#[test]
fn get_repo_map_excludes_file_kind_nodes() {
    let file_node = make_kind(1, "src/a.ts", "src/a.ts", "file");
    let fn_node = make_node(2, "src/a.ts", "fn:a");
    let store = make_store(vec![file_node, fn_node], &[]);
    let result = get_repo_map(&store);
    assert!(result.contains("src/a.ts"));
    assert!(
        result.contains("[1 symbol]"),
        "file-kind node must be excluded from symbol count"
    );
}

/// Two crates of which one needs the other.
fn two_crate_store(with_refcall: bool) -> Store {
    let mut nodes = Vec::new();
    for (i, f) in ["a", "b", "c"].iter().enumerate() {
        let i = i as u64 * 2 + 1;
        nodes.push(make_node(
            i,
            &format!("crates/travsr-core/src/{f}.rs"),
            &format!("fn:core_{f}"),
        ));
        nodes.push(make_node(
            i + 1,
            &format!("crates/travsr-mcp/src/{f}.rs"),
            &format!("fn:mcp_{f}"),
        ));
    }
    let (core_a, core_b, mcp_b) = (nodes[0].id, nodes[2].id, nodes[3].id);
    nodes.push(make_kind(10, "crates/travsr-mcp/src/a.rs", "use:core", "import"));
    let mut edges = vec![(10, core_a, EdgeKind::ResolvesTo)];
    if with_refcall {
        edges.push((mcp_b, core_b, EdgeKind::RefCall));
    }
    make_store(nodes, &edges)
}

#[test]
fn get_repo_map_ranks_regions_by_dependents() {
    let store = two_crate_store(false);
    let result = get_repo_map(&store);
    let core = result
        .find("crates/travsr-core")
        .expect("core region present");
    let mcp = result
        .find("crates/travsr-mcp")
        .expect("mcp region present");
    assert!(
        core < mcp,
        "depended-upon core must rank before leaf mcp:\n{result}"
    );
    assert!(
        result.contains("dependents: 1"),
        "core dependents shown:\n{result}"
    );
}

#[test]
fn get_repo_map_excludes_unknown_bucket() {
    let ext = make_kind(1, "", "crate:anyhow", "crate");
    let fn_node = make_node(2, "crates/travsr-core/src/lib.rs", "fn:a");
    let store = make_store(vec![ext, fn_node], &[]);
    let result = get_repo_map(&store);
    assert!(
        !result.contains("<unknown>"),
        "external-ref bucket must be dropped:\n{result}"
    );
}

#[test]
fn get_repo_map_not_indexed_message() {
    let store = make_store(vec![], &[]);
    let result = get_repo_map(&store);
    assert!(
        result.contains("travsr init"),
        "empty store must return an actionable not-indexed message, got: {result:?}"
    );
}

#[test]
fn get_repo_map_discloses_missing_phase_b() {
    let without = get_repo_map(&two_crate_store(false));
    assert!(
        without.contains("Phase B"),
        "missing-Phase-B state must be disclosed:\n{without}"
    );
    let with = get_repo_map(&two_crate_store(true));
    assert!(
        !with.contains("Phase B) has not run"),
        "semantic note must be omitted once Phase B has run:\n{with}"
    );
}

#[test]
fn get_repo_map_is_deterministic() {
    let store = two_crate_store(false);
    assert_eq!(get_repo_map(&store), get_repo_map(&store));
}

#[test]
fn get_repo_map_excludes_synthetic_pseudo_paths() {
    let synth = make_kind(1, "<cgo_synthetic>/x.go", "fn:cgo_thing", "function");
    let real = make_node(2, "crates/travsr-core/src/lib.rs", "fn:real");
    let store = make_store(vec![synth, real], &[]);
    let result = get_repo_map(&store);
    assert!(
        !result.contains("cgo_synthetic"),
        "synthetic pseudo-path must be excluded:\n{result}"
    );
    assert!(
        result.contains("crates/travsr-core"),
        "real region must still be present:\n{result}"
    );
}

#[test]
fn get_repo_map_reserves_prefix_budget() {
    let mut nodes = Vec::new();
    let mut id = 0u64;
    for i in 0..40 {
        for f in 0..4 {
            for s in 0..6 {
                id += 1;
                nodes.push(make_node(
                    id,
                    &format!("crates/crate-{i:02}/src/file{f}.rs"),
                    &format!("fn:crate{i}_file{f}_sym{s}"),
                ));
            }
        }
    }
    let store = make_store(nodes, &[]);
    let reserve = 17usize;
    let raw = get_repo_map_raw(&store, reserve);
    let line_count = raw.lines().count();
    let prefixed = raw.len() + line_count * reserve;
    assert!(
        prefixed <= 4096,
        "prefixed map exceeds the 4 KB cap: {prefixed} bytes over {line_count} lines"
    );
    assert!(
        raw.contains("Repo map"),
        "header must survive the reserve:\n{raw}"
    );
}

#[test]
fn the_maps_of_several_repositories_are_marked() {
    let repos = vec![repo("one", two_crate_store(false)), repo("two", two_crate_store(true))];
    let both = get_repo_map_global(&repos, None);
    assert!(both.contains("[one] ") && both.contains("[two] "), "got: {both}");
    let single = get_repo_map_global(&repos, Some("one"));
    assert!(!single.contains("[two] "), "got: {single}");
}

#[test]
fn a_sum_beyond_a_machine_word_is_noticed() {
    let counted = |nodes: u64, edges: u64| {
        let mut store = Store::new();
        store.node_total = Some(nodes);
        store.edge_total = Some(edges);
        store
    };
    let fits = vec![repo("one", counted(u64::MAX - 1, 3)), repo("two", counted(1, 4))];
    assert!(totals_fit(&fits, None));
    assert_eq!(
        get_graph_stats_global(&fits, None),
        format!("nodes: {}\nedges: 7", u64::MAX)
    );
    let over = vec![repo("one", counted(1, u64::MAX)), repo("two", counted(1, 1))];
    assert!(!totals_fit(&over, None));
    assert!(totals_fit(&over, Some("two")));
}

#[test]
fn a_marked_map_fits_the_response() {
    let mut nodes = Vec::new();
    for i in 0..150u64 {
        for f in 0..3u64 {
            nodes.push(make_node(
                i * 3 + f + 1,
                &format!("crates/crate-{i:02}/src/file{f}.rs"),
                &format!("fn:crate{i}_file{f}"),
            ));
        }
    }
    let store = make_store(nodes, &[]);
    for width in [0usize, 5, 40, 200, 700, 1000] {
        let raw = get_repo_map_raw(&store, width + 3);
        assert!(raw.contains("more components (of "), "got: {raw}");
        let mark = format!("[{}] ", "n".repeat(width));
        let marked: Vec<String> = raw.lines().map(|l| format!("{mark}{l}")).collect();
        let size = marked.join("\n").len();
        assert!(size <= 4096, "{size} bytes with marks of {}", width + 3);
    }
}
