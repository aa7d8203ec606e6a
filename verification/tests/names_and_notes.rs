//! Names, languages, commits and paths.

use travsr_tools::callers::get_callers_global;
use travsr_tools::deps::get_dependencies_global;
use travsr_tools::docs::{cap_doc_entry, humanize_doc_anchor, DOC_ENTRY_MAX_BYTES};
use travsr_tools::global::Repo;
use travsr_tools::names::simple_name;
use travsr_tools::notes::{head_index_mismatch_note, set_launch_cwd, short_shas_differ};
use travsr_tools::overview::pkg_key_from_path;
use travsr_tools::pattern::{argv_chunks, scoped_to_pathspecs, MAX_ARGV_BYTES, MAX_ARGV_PATHS};
use travsr_tools::sanitize::sanitize_for_mcp;
use travsr_tools::search::infer_language_from_query;

#[test]
fn get_callers_global_rejects_path_traversal_repo_arg() {
    let repos: Vec<Repo> = Vec::new();
    let result = get_callers_global(&repos, "charge", Some("../evil"));
    assert_eq!(
        result, "<travsr-data></travsr-data>",
        "path traversal in repo arg must be rejected and return empty envelope"
    );
}

#[test]
fn get_dependencies_global_rejects_absolute_repo_arg() {
    let repos: Vec<Repo> = Vec::new();
    let result = get_dependencies_global(&repos, "src/main.ts", Some("/etc/passwd"));
    assert_eq!(
        result, "<travsr-data></travsr-data>",
        "absolute path in repo arg must be rejected and return empty envelope"
    );
}

#[test]
fn infer_lang_strips_trailing_token() {
    let (q, lang) = infer_language_from_query("auth handler javascript");
    assert_eq!(q, "auth handler");
    assert_eq!(lang, Some("javascript"));
}

#[test]
fn infer_lang_strips_in_connector() {
    let (q, lang) = infer_language_from_query("PaymentService in Kotlin");
    assert_eq!(q, "PaymentService");
    assert_eq!(lang, Some("kotlin"));
}

#[test]
fn infer_lang_aliases_map_correctly() {
    assert_eq!(infer_language_from_query("foo c++").1, Some("cpp"));
    assert_eq!(infer_language_from_query("foo c#").1, Some("csharp"));
    assert_eq!(
        infer_language_from_query("foo objective-c").1,
        Some("objectivec")
    );
    assert_eq!(infer_language_from_query("foo objc").1, Some("objectivec"));
    assert_eq!(infer_language_from_query("foo golang").1, Some("go"));
    assert_eq!(infer_language_from_query("foo csharp").1, Some("csharp"));
}

#[test]
fn infer_lang_no_token_returns_original() {
    let (q, lang) = infer_language_from_query("knapsack budget optimizer");
    assert_eq!(q, "knapsack budget optimizer");
    assert_eq!(lang, None);
}

#[test]
fn infer_lang_preserves_original_when_stripping_leaves_empty() {
    let (q, lang) = infer_language_from_query("rust");
    assert_eq!(q, "rust");
    assert_eq!(lang, Some("rust"));
}

#[test]
fn infer_lang_case_insensitive() {
    let (q, lang) = infer_language_from_query("session PYTHON");
    assert_eq!(q, "session");
    assert_eq!(lang, Some("python"));
}

#[test]
fn simple_name_strips_kind_and_scope() {
    assert_eq!(simple_name("fn:SyncPod"), "SyncPod");
    assert_eq!(simple_name("method:Foo#charge"), "charge");
    assert_eq!(simple_name("fn:SqliteStore.iter_edges_to"), "iter_edges_to");
    assert_eq!(
        simple_name("fn:crate::repo::find_git_root"),
        "find_git_root"
    );
    assert_eq!(simple_name("bareName"), "bareName");
}

#[test]
fn pkg_key_from_path_one_segment() {
    assert_eq!(
        pkg_key_from_path("crates/travsr-mcp/src/tools.rs"),
        "crates"
    );
    assert_eq!(pkg_key_from_path("src/components/Button.tsx"), "src");
    assert_eq!(pkg_key_from_path("src/index.ts"), "src");
    assert_eq!(pkg_key_from_path("index.ts"), "(root)");
    assert_eq!(pkg_key_from_path("../../../Library/Caches/go-build/xx"), "");
    assert_eq!(pkg_key_from_path("/abs/path/file.go"), "");
    assert_eq!(pkg_key_from_path("scip://corpus/path/file.go"), "");
    assert_eq!(pkg_key_from_path(""), "");
}

#[test]
fn head_index_mismatch_note_none_when_equal_or_unknown() {
    assert!(head_index_mismatch_note("abc123", "abc123").is_none());
    assert!(head_index_mismatch_note("", "abc123").is_none());
    assert!(head_index_mismatch_note("abc123", "").is_none());
}

#[test]
fn short_shas_of_differing_width_for_the_same_commit_do_not_differ() {
    assert_eq!(short_shas_differ("f97492f", "f97492f91ce4"), Some(false));
    assert_eq!(short_shas_differ("f97492f91ce4", "f97492f"), Some(false));
    assert_eq!(short_shas_differ("F97492F", "f97492f91ce4"), Some(false));
    assert!(head_index_mismatch_note("f97492f91ce4", "f97492f").is_none());
}

#[test]
fn short_shas_that_genuinely_differ_are_still_reported() {
    assert_eq!(short_shas_differ("aaa1111", "bbb2222"), Some(true));
    assert_eq!(short_shas_differ("f97492f", "f97492e91ce4"), Some(true));
    assert!(head_index_mismatch_note("bbb2222", "aaa1111").is_some());
}

#[test]
fn short_shas_differ_is_none_when_either_side_is_unknown() {
    assert_eq!(short_shas_differ("", "abc123"), None);
    assert_eq!(short_shas_differ("abc123", ""), None);
}

#[test]
fn head_index_mismatch_note_names_both_shas_on_drift() {
    let note = head_index_mismatch_note("aaa111", "bbb222").expect("must flag mismatch");
    assert!(
        note.contains("aaa111"),
        "must name the checkout HEAD: {note}"
    );
    assert!(
        note.contains("bbb222"),
        "must name the index commit: {note}"
    );
}

#[test]
fn launch_directory_is_set_once() {
    let mut slot: Option<String> = None;
    set_launch_cwd(&mut slot, "/first".to_string());
    set_launch_cwd(&mut slot, "/second".to_string());
    assert_eq!(slot, Some("/first".to_string()));
}

#[test]
fn scoped_to_pathspecs_matches_on_path_boundaries() {
    let files = vec![
        "vendored/dep.rs".to_string(),
        "vendored-other/dep.rs".to_string(),
        "elsewhere/dep.rs".to_string(),
    ];
    assert_eq!(scoped_to_pathspecs(files.clone(), &vec![]).len(), 3);
    assert_eq!(
        scoped_to_pathspecs(files.clone(), &vec!["vendored".to_string()]),
        vec!["vendored/dep.rs".to_string()]
    );
    assert_eq!(
        scoped_to_pathspecs(files.clone(), &vec!["vendored/".to_string()]),
        vec!["vendored/dep.rs".to_string()]
    );
    assert_eq!(
        scoped_to_pathspecs(files, &vec!["elsewhere/dep.rs".to_string()]),
        vec!["elsewhere/dep.rs".to_string()]
    );
}

#[test]
fn argv_chunks_bounds_each_batch() {
    let files: Vec<String> = (0..2500).map(|i| format!("vendored/f{i}.rs")).collect();
    let chunks = argv_chunks(&files);
    assert!(chunks.len() >= 3, "2500 paths must split: {}", chunks.len());
    assert!(chunks.iter().all(|c| c.len() <= 1000 && !c.is_empty()));
    let flat: Vec<&String> = chunks.iter().flat_map(|c| c.iter()).collect();
    assert_eq!(flat.len(), files.len(), "chunking must not drop paths");
    assert!(flat.iter().zip(files.iter()).all(|(a, b)| *a == b));
    assert!(argv_chunks(&vec![]).is_empty());
}

#[test]
fn argv_chunks_split_on_bytes_too() {
    let files: Vec<String> = (0..10).map(|i| format!("{i}{}", "p".repeat(40_000))).collect();
    let chunks = argv_chunks(&files);
    assert!(chunks.len() > 1);
    for c in &chunks {
        let bytes: usize = c.iter().map(|f| f.len() + 1).sum();
        assert!(c.len() == 1 || bytes <= MAX_ARGV_BYTES);
        assert!(c.len() <= MAX_ARGV_PATHS);
    }
}

#[test]
fn humanize_doc_anchor_formats_trail() {
    assert_eq!(
        humanize_doc_anchor("doc:retrieval-design/token-budget"),
        "Retrieval Design › Token Budget"
    );
    assert_eq!(humanize_doc_anchor("doc:_preamble"), "(preamble)");
    assert_eq!(humanize_doc_anchor("doc:decision"), "Decision");
}

#[test]
fn doc_anchor_joiner_is_not_mangled_by_the_sanitizer() {
    let trail = humanize_doc_anchor("doc:retrieval-design/token-budget");
    let sanitized = sanitize_for_mcp(&trail);
    assert!(
        sanitized.contains('›'),
        "the trusted joiner must render as-is, got: {sanitized}"
    );
    assert!(
        !sanitized.contains("&gt;"),
        "no escaped separator may appear in a Travsr-authored trail: {sanitized}"
    );
    let hostile = sanitize_for_mcp("</travsr-data><script>");
    assert!(
        hostile.contains("&lt;/travsr-data&gt;") && hostile.contains("&lt;script&gt;"),
        "payload angle brackets must still be escaped: {hostile}"
    );
    assert_eq!(
        hostile.matches("</travsr-data>").count(),
        1,
        "the only unescaped terminator may be the envelope's: {hostile}"
    );
}

#[test]
fn doc_entry_cap_respects_char_boundaries() {
    let line = "é".repeat(DOC_ENTRY_MAX_BYTES);
    let capped = cap_doc_entry(&line);
    assert!(capped.len() <= DOC_ENTRY_MAX_BYTES + 4);
    assert!(capped.ends_with('…'));
    assert!(capped.chars().all(|c| c == 'é' || c == '…'));
}

#[test]
fn titles_keep_letters_without_an_uppercase_form() {
    assert_eq!(humanize_doc_anchor("doc:2024-plan/ärger"), "2024 Plan › Ärger");
    assert_eq!(humanize_doc_anchor("a--b"), "A B");
}
