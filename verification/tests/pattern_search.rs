//! Textual search.

use travsr_tools::global::Repo;
use travsr_tools::grep::{Action, Progress, Search};
use travsr_tools::pattern::{
    argv_chunks, batch_pass_args, find_pattern, find_pattern_global, find_pattern_plan,
    first_pass_args, grep_pass, includes_again, pcre_only_advisory, run_git_grep, second_pass,
    skip_dir, travsrignore_reincluded_files, PassOutput, PatternPlan,
};
use travsr_tools::store::{
    Edge, EdgeKind, GrepOutcome, GrepRecord, NameSearch, Node, Store,
};

const EMPTY: &str = "<travsr-data></travsr-data>";

/// A repository as the search tool sees it: files that it finds by itself, files that it ignores,
/// and the rules of the index.
struct Tree {
    found: Vec<(String, String)>,
    ignored: Vec<(String, String)>,
    rules: Option<String>,
}

impl Tree {
    fn of(path: &str, content: &str) -> Tree {
        Tree {
            found: vec![(path.to_string(), content.to_string())],
            ignored: vec![],
            rules: None,
        }
    }

    fn listing(&self) -> String {
        self.ignored.iter().map(|(p, _)| format!("{p}\0")).collect()
    }
}

/// The lines with a text, as the search tool prints them.
fn printed(files: &[(String, String)], wanted: &[String], text: &str) -> PassOutput {
    let mut stdout = String::new();
    for (path, content) in files {
        let inside = |w: &String| path == w || path.starts_with(&format!("{w}/"));
        if !wanted.is_empty() && !wanted.iter().any(inside) {
            continue;
        }
        for (i, line) in content.lines().enumerate() {
            if line.contains(text) {
                stdout.push_str(&format!("{path}:{}:{line}\n", i + 1));
            }
        }
    }
    let code = Some(if stdout.is_empty() { 1 } else { 0 });
    PassOutput::Exited { code, stdout, stderr: String::new() }
}

/// Runs the planned search over the tree, with a text that stands for the pattern, and records it.
fn search(tree: &Tree, pattern: &str, text: &str, scope: Option<&str>, fixed: bool) -> String {
    let mut store = Store::new();
    store.meta.push(("repo_root".to_string(), "/r".to_string()));
    let pathspecs = match find_pattern_plan(&store, pattern, scope) {
        PatternPlan::Answer(_) => return find_pattern(&store, pattern, scope, fixed),
        PatternPlan::Search(p) => p,
    };
    let rules = tree.rules.as_deref();
    let listing = tree.listing();
    let first = printed(&tree.found, &pathspecs, text);
    let batches = second_pass("/r", rules, Some(&listing), &pathspecs, &vec![]);
    let rest: Vec<PassOutput> =
        batches.iter().map(|b| printed(&tree.ignored, b, text)).collect();
    let outcome = run_git_grep("/r", rules, &first, &rest, &vec![]);
    record(&mut store, pattern, pathspecs, fixed, outcome);
    find_pattern(&store, pattern, scope, fixed)
}

fn record(store: &mut Store, pattern: &str, paths: Vec<String>, fixed: bool, outcome: GrepOutcome) {
    store.greps.push(GrepRecord {
        pattern: pattern.to_string(),
        pathspecs: paths,
        fixed,
        outcome,
    });
}

fn extract_match_count(out: &str) -> usize {
    out.lines()
        .find_map(|l| {
            l.trim_start_matches("<travsr-data>")
                .strip_suffix(" match(es):")
                .and_then(|n| n.parse().ok())
        })
        .unwrap_or(0)
}

#[test]
fn find_pattern_rejects_control_chars() {
    let store = Store::new();
    assert_eq!(find_pattern(&store, "foo\nbar", None, false), EMPTY);
    assert_eq!(find_pattern(&store, "", None, false), EMPTY);
}

#[test]
fn find_pattern_without_repo_root_is_graceful() {
    let out = find_pattern(&Store::new(), "charge", None, false);
    assert!(
        out.contains("run `travsr init`"),
        "expected init hint: {out}"
    );
}

#[test]
fn find_pattern_rejects_out_of_repo_scope() {
    let mut store = Store::new();
    store.meta.push(("repo_root".to_string(), "/tmp/whatever".to_string()));
    assert_eq!(find_pattern(&store, "charge", Some("/etc"), false), EMPTY);
    assert_eq!(
        find_pattern(&store, "charge", Some("../secrets"), false),
        EMPTY
    );
}

#[test]
fn find_pattern_honors_travsrignore() {
    let body = "fn charge() {}\n".to_string();
    let tree = Tree {
        found: vec![("keep.rs".to_string(), body.clone()), ("gen/skip.rs".to_string(), body)],
        ignored: vec![],
        rules: Some("gen/\n".to_string()),
    };
    let out = search(&tree, "charge", "charge", None, false);
    assert!(out.contains("keep.rs"), "got: {out}");
    assert!(
        !out.contains("gen/skip.rs"),
        ".travsrignore-excluded file must not appear: {out}"
    );
}

/// One file of every class on which the index and the search tool disagree.
fn file_universe() -> Tree {
    let body = "fn charge() {}\n".to_string();
    Tree {
        found: vec![
            ("tracked.rs".to_string(), body.clone()),
            ("untracked.rs".to_string(), body.clone()),
        ],
        ignored: vec![
            ("vendored/dep.rs".to_string(), body.clone()),
            ("ignored/dep.rs".to_string(), body),
        ],
        rules: Some("!vendored/\n".to_string()),
    }
}

#[test]
fn find_pattern_reaches_untracked_indexed_file() {
    let out = search(&file_universe(), "charge", "charge", None, false);
    assert!(
        out.contains("untracked.rs"),
        "an indexed-but-untracked file must be searchable: {out}"
    );
}

#[test]
fn find_pattern_reaches_travsrignore_reincluded_file() {
    let out = search(&file_universe(), "charge", "charge", None, false);
    assert!(
        out.contains("vendored/dep.rs"),
        "a `!`-re-included gitignored file is in the graph and must be searchable: {out}"
    );
}

#[test]
fn find_pattern_still_excludes_plain_gitignored_file() {
    let out = search(&file_universe(), "charge", "charge", None, false);
    assert!(
        !out.contains("ignored/dep.rs"),
        "a gitignored file with no `!` rule is not in the graph and must not appear: {out}"
    );
}

#[test]
fn find_pattern_still_excludes_skip_dirs_that_no_ignore_rule_covers() {
    let body = "fn charge() {}\n".to_string();
    let tree = Tree {
        found: vec![
            ("tracked.rs".to_string(), body.clone()),
            ("dist/bundle.rs".to_string(), body.clone()),
            ("target/bundle.rs".to_string(), body),
        ],
        ignored: vec![],
        rules: None,
    };
    let out = search(&tree, "charge", "charge", None, false);
    assert!(out.contains("tracked.rs"), "got: {out}");
    assert!(
        !out.contains("dist/bundle.rs") && !out.contains("target/bundle.rs"),
        "a SKIP_DIRS path the walker never indexes must not be searchable, \
         even when no ignore rule covers it: {out}"
    );
}

#[test]
fn find_pattern_scope_confines_reincluded_files() {
    let out = search(&file_universe(), "charge", "charge", Some("vendored"), false);
    assert!(!out.contains("tracked.rs"), "scope was not applied at all: {out}");
    assert!(out.contains("vendored/dep.rs"), "got: {out}");
    assert!(
        !out.contains("untracked.rs"),
        "scope must confine the re-included pass too: {out}"
    );
}

#[test]
fn travsrignore_reincluded_files_is_empty_without_a_negation() {
    let listing = "gen/a.rs\0";
    let none: Vec<String> = vec![];
    let rules = Some("gen/\n#!not-a-rule\n");
    assert!(travsrignore_reincluded_files("/r", rules, Some(listing), &none).is_empty());
    assert!(travsrignore_reincluded_files("/r", None, Some(listing), &none).is_empty());
    assert!(!includes_again("gen/\n#!not-a-rule\n"));
}

#[test]
fn travsrignore_reincluded_files_never_escapes_skip_dirs() {
    let found = travsrignore_reincluded_files(
        "/r",
        Some("!node_modules/\n!vendored/\n"),
        Some("node_modules/pkg/index.rs\0vendored/dep.rs\0"),
        &vec![],
    );
    assert!(
        !found.iter().any(|p| p.starts_with("node_modules/")),
        "a SKIP_DIRS path must stay out even with an explicit `!` rule: {found:?}"
    );
    assert!(
        found.contains(&"vendored/dep.rs".to_string()),
        "the non-SKIP_DIRS re-inclusion must still be picked up: {found:?}"
    );
}

#[test]
fn travsrignore_reincluded_files_handles_glob_negation() {
    let found = travsrignore_reincluded_files(
        "/r",
        Some("!vendored/**/*.rs\n"),
        Some("vendored/deep/nested/dep.rs\0vendored/notes.txt\0"),
        &vec![],
    );
    assert!(
        found.contains(&"vendored/deep/nested/dep.rs".to_string()),
        "a glob `!` rule must re-include the nested match: {found:?}"
    );
    assert!(
        !found.contains(&"vendored/notes.txt".to_string()),
        "a file the glob does not match must stay excluded: {found:?}"
    );
}

#[test]
fn find_pattern_reaches_every_reincluded_file_across_argv_chunks() {
    const N: usize = 2400;
    let files: Vec<(String, String)> = (0..N)
        .map(|i| (format!("vendored/f{i:04}.rs"), "fn charge() {}\n".to_string()))
        .collect();
    let tree = Tree { found: vec![], ignored: files, rules: Some("!vendored/\n".to_string()) };
    let listing = tree.listing();
    let reincluded =
        travsrignore_reincluded_files("/r", tree.rules.as_deref(), Some(&listing), &vec![]);
    assert_eq!(reincluded.len(), N, "every re-included file must be listed");
    assert!(
        argv_chunks(&reincluded).len() >= 3,
        "fixture must actually span multiple batches"
    );
    let out = search(&tree, "charge", "charge", None, false);
    assert_eq!(
        extract_match_count(&out),
        N,
        "matches from later batches must not be dropped: {}",
        out.lines().next().unwrap_or("")
    );
}

#[test]
fn pattern_alternation_never_reduces_match_count() {
    let tree = Tree::of("fix.rs", "let alpha = 1;\nlet beta = 2;\n");
    let base = search(&tree, "alpha", "alpha", None, false);
    let widened = search(&tree, "alpha|zzznonexistent", "alpha", None, false);
    assert!(
        extract_match_count(&widened) >= extract_match_count(&base),
        "alternation must never reduce match count: base={base:?} widened={widened:?}"
    );
    assert_eq!(extract_match_count(&base), 1);
}

#[test]
fn pattern_capture_group_matches_like_the_bare_literal() {
    let tree = Tree::of("fix.rs", "let alpha = 1;\n");
    let bare = search(&tree, "alpha", "alpha", None, false);
    let grouped = search(&tree, "(alpha)", "alpha", None, false);
    assert_eq!(
        extract_match_count(&bare),
        extract_match_count(&grouped),
        "a capture group around a literal must match identically: bare={bare:?} grouped={grouped:?}"
    );
}

#[test]
fn pattern_escaped_paren_finds_call_sites() {
    let out = search(&Tree::of("fix.rs", "alpha();\n"), "alpha\\(", "alpha(", None, false);
    assert!(
        out.contains("alpha();"),
        "escaped paren must find the call site: {out}"
    );
}

/// What a failed run of the search tool leads to.
fn failed(stderr: &str) -> GrepOutcome {
    let first = PassOutput::Exited {
        code: Some(128),
        stdout: String::new(),
        stderr: stderr.to_string(),
    };
    run_git_grep("/r", None, &first, &vec![], &vec![])
}

#[test]
fn pattern_reports_error_for_uncompilable_pattern() {
    let mut store = Store::new();
    store.meta.push(("repo_root".to_string(), "/r".to_string()));
    let outcome = failed("fatal: command line, 'alpha(': Unmatched ( or \\(\n");
    record(&mut store, "alpha(", vec![], false, outcome);
    let out = find_pattern(&store, "alpha(", None, false);
    assert!(
        out.contains("pattern error"),
        "an unbalanced group must error, not return empty: {out}"
    );
    assert!(
        out.contains("--fixed"),
        "the error must name --fixed as the escape hatch: {out}"
    );
    assert_ne!(
        out, "<travsr-data></travsr-data>",
        "the error must not be laundered into an empty envelope"
    );
}

#[test]
fn pattern_fixed_mode_treats_metachars_literally() {
    let out = search(&Tree::of("fix.rs", "alpha();\n"), "alpha(", "alpha(", None, true);
    assert!(
        !out.contains("pattern error"),
        "--fixed must not attempt regex compilation: {out}"
    );
    assert!(
        out.contains("alpha();"),
        "--fixed must find the literal match: {out}"
    );
    let none: Vec<String> = vec![];
    let fixed = first_pass_args("/r", "alpha(", &none, true, 2);
    let regular = first_pass_args("/r", "alpha(", &none, false, 2);
    assert!(fixed.contains(&"-F".to_string()), "got: {fixed:?}");
    assert!(regular.contains(&"-E".to_string()), "got: {regular:?}");
    let batch = batch_pass_args("/r", "alpha(", &vec!["v/a.rs".to_string()], true, 2);
    assert_eq!(batch.last().unwrap(), "v/a.rs");
}

#[test]
fn pattern_allows_percent_in_pattern() {
    let out = search(&Tree::of("fix.rs", "let load = 100%;\n"), "100%", "100%", None, false);
    assert_eq!(
        extract_match_count(&out),
        1,
        "percent must not be rejected as path-traversal signal: {out}"
    );
}

#[test]
fn pattern_still_rejects_nul_and_control_chars() {
    let store = Store::new();
    assert_eq!(find_pattern(&store, "foo\0bar", None, false), EMPTY);
    assert_eq!(find_pattern(&store, "foo\nbar", None, false), EMPTY);
}

#[test]
fn pattern_scope_still_rejects_traversal() {
    let mut store = Store::new();
    store.meta.push(("repo_root".to_string(), "/tmp/whatever".to_string()));
    assert_eq!(
        find_pattern(&store, "100%", Some("../etc"), false),
        EMPTY,
        "a percent-containing pattern must not smuggle a traversal scope past validation"
    );
}

#[test]
fn pattern_scope_rejects_windows_absolute_and_backslash_traversal() {
    let mut store = Store::new();
    store.meta.push(("repo_root".to_string(), "/tmp/whatever".to_string()));
    for scope in [
        r"..\..\etc",
        r"src\..\..\etc",
        r"C:\Windows\System32",
        r"c:/windows",
        r"\\server\share",
        "/etc",
        "../etc",
        "src/../../etc",
    ] {
        assert_eq!(
            find_pattern(&store, "alpha", Some(scope), false),
            EMPTY,
            "scope {scope:?} must be rejected"
        );
    }
}

#[test]
fn pattern_scope_accepts_normal_relative_prefixes() {
    let tree = Tree::of("src/fix.rs", "let alpha = 1;\n");
    for scope in ["src", "src/fix.rs", "a.b/c"] {
        let out = search(&tree, "alpha", "alpha", Some(scope), false);
        if scope == "src" || scope == "src/fix.rs" {
            assert!(
                out.contains("alpha"),
                "valid scope {scope:?} must reach git grep and match: {out}"
            );
        }
    }
}

#[test]
fn pattern_advises_on_pcre_only_construct() {
    let tree = Tree::of("fix.rs", "let alpha = 1;\n");
    let out = search(&tree, "\\dalpha", "\\dalpha", None, false);
    assert!(
        out.contains("\\d"),
        "advisory must name the unsupported construct: {out}"
    );
    assert!(
        out.contains("PCRE"),
        "advisory must explain why it is unsupported: {out}"
    );
    assert!(pcre_only_advisory("alpha").is_none());
}

#[test]
fn pattern_global_attributes_error_to_the_failing_repo() {
    let mut ok = Store::new();
    ok.meta.push(("repo_root".to_string(), "/ok".to_string()));
    let first = printed(&[("fix.rs".to_string(), "let alpha = 1;\n".to_string())], &[], "alpha");
    let outcome = run_git_grep("/ok", None, &first, &vec![], &vec![]);
    record(&mut ok, "alpha", vec![], false, outcome);
    let mut bad = Store::new();
    bad.meta.push(("repo_root".to_string(), "/bad".to_string()));
    record(&mut bad, "alpha", vec![], false, failed("fatal: not a git repository\n"));
    let repos = vec![
        Repo { name: "repo_ok".to_string(), live: true, store: Some(ok), head: None },
        Repo { name: "repo_bad".to_string(), live: true, store: Some(bad), head: None },
    ];
    let out = find_pattern_global(&repos, "alpha", None, None, false);
    assert!(
        out.contains("[repo_bad] pattern error"),
        "the failing repo's error must be attributed to it, not silently dropped: {out}"
    );
    assert!(
        !out.contains("[repo_ok] pattern error"),
        "the healthy repo must not show an error: {out}"
    );
    assert!(
        out.contains("alpha"),
        "the healthy repo's match must still appear alongside the error: {out}"
    );
}

#[test]
fn a_run_of_the_tool_reads_as_it_ended() {
    let spawn = grep_pass(&PassOutput::SpawnFailed("no git".to_string()));
    assert_eq!(spawn, Err("failed to run git grep: no git".to_string()));
    let late = grep_pass(&PassOutput::TimedOut(10));
    assert_eq!(late, Err("pattern search timed out after 10s".to_string()));
    let ended = |code: Option<i32>, stdout: &str, stderr: &str| {
        grep_pass(&PassOutput::Exited {
            code,
            stdout: stdout.to_string(),
            stderr: stderr.to_string(),
        })
    };
    assert_eq!(ended(Some(0), "a:1:x\nb:2:y\n", ""), Ok(vec!["a:1:x".to_string(), "b:2:y".to_string()]));
    assert_eq!(ended(Some(1), "", ""), Ok(vec![]));
    assert_eq!(ended(Some(128), "", "bad\nworse\n"), Err("bad".to_string()));
    assert_eq!(ended(None, "", ""), Err("git grep failed".to_string()));
}

#[test]
fn directories_of_the_indexer_are_skipped_too() {
    let none: Vec<String> = vec![];
    let more = vec!["scratch".to_string()];
    assert!(skip_dir("node_modules", &none));
    assert!(!skip_dir("scratch", &none));
    assert!(skip_dir("scratch", &more));
}

#[test]
fn every_fixed_directory_is_skipped_at_any_depth() {
    for dir in
        [".git", ".travsr", "target", "node_modules", "dist", ".next", ".vscode", ".vscode-test"]
    {
        assert!(skip_dir(dir, &vec![]), "{dir} must be skipped");
        let stdout = format!("{dir}/a.rs:1:1:x\nsrc/{dir}/a.rs:1:1:x\nsrc/a.rs:1:1:x\n");
        let first = PassOutput::Exited { code: Some(0), stdout, stderr: String::new() };
        match run_git_grep("/r", None, &first, &vec![], &vec![]) {
            GrepOutcome::Matches(m) => assert_eq!(m, "1 match(es):\nsrc/a.rs:1:1:x"),
            other => panic!("got {other:?}"),
        }
    }
}

#[test]
fn the_directories_of_the_indexer_are_skipped_at_any_depth() {
    let more = vec!["scratch".to_string()];
    let stdout = "scratch/a.rs:1:1:x\nsrc/scratch/b.rs:1:1:x\nscratch.rs:1:1:x\n".to_string();
    let first = PassOutput::Exited { code: Some(0), stdout, stderr: String::new() };
    match run_git_grep("/r", None, &first, &vec![], &more) {
        GrepOutcome::Matches(m) => assert_eq!(m, "1 match(es):\nscratch.rs:1:1:x"),
        other => panic!("got {other:?}"),
    }
    let listing = "scratch/a.log\0b.log\0";
    let rules = Some("!*.log\n");
    let files = travsrignore_reincluded_files("/r", rules, Some(listing), &more);
    assert_eq!(files, vec!["b.log".to_string()]);
    assert_eq!(
        second_pass("/r", rules, Some(listing), &vec![], &more),
        vec![vec!["b.log".to_string()]]
    );
}

#[test]
fn a_path_that_is_not_below_an_empty_root_has_no_verdict() {
    let rules = Some("*.log\n!keep.log\n");
    let stdout = ".///b.log:1:1:x\n/b.log:1:1:x\n.//c.log:1:1:x\nd.log:1:1:x\n".to_string();
    let first = PassOutput::Exited { code: Some(0), stdout, stderr: String::new() };
    match run_git_grep("", rules, &first, &vec![], &vec![]) {
        GrepOutcome::Matches(m) => {
            assert_eq!(m, "2 match(es):\n.///b.log:1:1:x\n/b.log:1:1:x");
        }
        other => panic!("got {other:?}"),
    }
    let listing = Some(".///keep.log\0keep.log\0");
    let files = travsrignore_reincluded_files("", rules, listing, &vec![]);
    assert_eq!(files, vec!["keep.log".to_string()]);
    let below = travsrignore_reincluded_files("/r", rules, listing, &vec![]);
    assert_eq!(below, vec![".///keep.log".to_string(), "keep.log".to_string()]);
}

fn search_with(rules: Option<&str>) -> Search {
    Search {
        root: "/r".to_string(),
        pattern: "x".to_string(),
        pathspecs: vec![],
        fixed: true,
        threads: 2,
        rules: rules.map(str::to_string),
        unindexed: vec![],
    }
}

fn exited(code: i32, stdout: &str) -> PassOutput {
    PassOutput::Exited { code: Some(code), stdout: stdout.to_string(), stderr: String::new() }
}

fn finished(action: Action) -> GrepOutcome {
    match action {
        Action::Finish(outcome) => outcome,
        other => panic!("got {other:?}"),
    }
}

#[test]
fn a_search_without_inclusions_is_one_run() {
    let search = search_with(Some("*.tmp\n"));
    let mut progress = Progress::new();
    match progress.next(&search) {
        Action::Run(args) => {
            assert_eq!(args, first_pass_args("/r", "x", &vec![], true, 2));
        }
        other => panic!("got {other:?}"),
    }
    progress.ran(exited(0, "a.rs:1:1:x\n"));
    match finished(progress.next(&search)) {
        GrepOutcome::Matches(m) => assert_eq!(m, "1 match(es):\na.rs:1:1:x"),
        other => panic!("got {other:?}"),
    }
}

#[test]
fn a_search_with_inclusions_lists_and_then_runs_each_batch() {
    let search = search_with(Some("!*.log\n"));
    let listing: String = (0..1001).map(|i| format!("{i}.log\0")).collect();
    let batches = second_pass("/r", Some("!*.log\n"), Some(&listing), &vec![], &vec![]);
    assert_eq!(batches.len(), 2);
    let mut progress = Progress::new();
    progress.ran(exited(1, ""));
    assert!(matches!(progress.next(&search), Action::List));
    progress.listed(&search, Some(&listing));
    for batch in &batches {
        match progress.next(&search) {
            Action::Run(args) => {
                assert_eq!(args, batch_pass_args("/r", "x", batch, true, 2));
            }
            other => panic!("got {other:?}"),
        }
        progress.ran(exited(0, &format!("{}:1:1:x\n", batch[0])));
    }
    match finished(progress.next(&search)) {
        GrepOutcome::Matches(m) => {
            assert_eq!(m, "2 match(es):\n0.log:1:1:x\n1000.log:1:1:x");
        }
        other => panic!("got {other:?}"),
    }
}

#[test]
fn nothing_runs_after_a_failed_run() {
    let search = search_with(Some("!*.log\n"));
    let mut progress = Progress::new();
    progress.ran(PassOutput::TimedOut(30));
    match finished(progress.next(&search)) {
        GrepOutcome::Error(e) => assert_eq!(e, "pattern search timed out after 30s"),
        other => panic!("got {other:?}"),
    }
    let listing: String = (0..1001).map(|i| format!("{i}.log\0")).collect();
    let mut progress = Progress::new();
    progress.ran(exited(0, "a.rs:1:1:x\n"));
    progress.listed(&search, Some(&listing));
    progress.ran(PassOutput::SpawnFailed("no git".to_string()));
    match finished(progress.next(&search)) {
        GrepOutcome::Matches(m) => assert_eq!(m, "1 match(es):\na.rs:1:1:x"),
        other => panic!("got {other:?}"),
    }
}

#[test]
fn a_listing_that_failed_leaves_the_first_run() {
    let search = search_with(Some("!*.log\n"));
    let mut progress = Progress::new();
    progress.ran(exited(1, ""));
    progress.listed(&search, None);
    assert!(matches!(finished(progress.next(&search)), GrepOutcome::NoMatches));
}

#[test]
fn a_search_that_was_not_run_says_so() {
    let mut store = Store::new();
    store.meta.push(("repo_root".to_string(), "/r".to_string()));
    let out = find_pattern(&store, "alpha", None, false);
    assert!(out.contains("pattern search was not run"), "got: {out}");
}

fn node(id: u64, path: &str) -> Node {
    Node {
        id,
        kind: "function".to_string(),
        signature: format!("fn:n{id}"),
        path: path.to_string(),
        corpus: String::new(),
        language: "rust".to_string(),
        package: String::new(),
        line: None,
        end_line: None,
        is_test: false,
        is_noise: false,
        token_cost: 10,
    }
}

#[test]
fn a_search_stays_in_the_repository() {
    let mut store = Store::new();
    store.meta.push(("repo_root".to_string(), "/r".to_string()));
    let target = node(1, "src/a.rs");
    store.name_searches.push(NameSearch { term: "a".to_string(), hits: Some(vec![target.clone()]) });
    store.nodes = vec![target, node(2, "src/b.rs"), node(3, "/etc/c"), node(4, "../d.rs")];
    for src in [2, 3, 4] {
        store.edges.push(Edge { src, dst: 1, kind: EdgeKind::Depends });
    }
    match find_pattern_plan(&store, "x", Some("files-importing(a)")) {
        PatternPlan::Search(v) => assert_eq!(v, vec!["src/b.rs".to_string()]),
        PatternPlan::Answer(s) => panic!("answered {s}"),
    }
}
