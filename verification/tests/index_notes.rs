//! Notes on the state of the index, and paths between symbols.

use travsr_tools::exec_path::{get_execution_path, get_execution_path_with_filter};
use travsr_tools::notes::{
    append_head_note, append_read_notes, git_short_head, phase_b_degraded_note, phase_b_pending, read_note_signals,
};
use travsr_tools::store::{Edge, EdgeKind, NameSearch, Node, PathAnswer, Store};

fn with_meta(pairs: &[(&str, &str)]) -> Store {
    let mut store = Store::new();
    for (k, v) in pairs {
        store.meta.push((k.to_string(), v.to_string()));
    }
    store
}

fn node(id: u64, path: &str, sig: &str) -> Node {
    Node {
        id,
        kind: "function".to_string(),
        signature: sig.to_string(),
        path: path.to_string(),
        corpus: "t".to_string(),
        language: "typescript".to_string(),
        package: String::new(),
        line: None,
        end_line: None,
        is_test: false,
        is_noise: false,
        token_cost: 10,
    }
}

fn record(store: &mut Store, term: &str) {
    let hits: Vec<Node> =
        store.nodes.iter().filter(|n| n.signature.contains(term)).cloned().collect();
    store.name_searches.push(NameSearch { term: term.to_string(), hits: Some(hits) });
}

#[test]
fn phase_b_note_none_when_marker_matches_head_and_clean() {
    let store = with_meta(&[("last_commit", "abc"), ("phase_b_commit", "abc")]);
    assert!(phase_b_degraded_note(&store).is_none());
}

#[test]
fn phase_b_note_none_on_no_commit_repo() {
    assert!(phase_b_degraded_note(&Store::new()).is_none());
}

#[test]
fn phase_b_note_pending_when_marker_absent() {
    let store = with_meta(&[("last_commit", "abc")]);
    assert!(phase_b_pending(&store));
    let note = phase_b_degraded_note(&store).expect("must flag pending");
    assert!(note.contains("call-graph index incomplete"), "got: {note}");
}

#[test]
fn phase_b_note_pending_when_marker_behind_head() {
    let store = with_meta(&[("last_commit", "def456"), ("phase_b_commit", "abc123")]);
    let note = phase_b_degraded_note(&store).expect("must flag pending");
    assert!(note.contains("call-graph index incomplete"), "got: {note}");
}

#[test]
fn phase_b_note_stale_when_dirty_flag_set() {
    let store = with_meta(&[
        ("last_commit", "abc"),
        ("phase_b_commit", "abc"),
        ("phase_b_dirty", "1"),
    ]);
    let note = phase_b_degraded_note(&store).expect("must flag stale");
    assert!(note.contains("call-graph edges degraded"), "got: {note}");
}

#[test]
fn phase_b_note_none_when_dirty_flag_cleared() {
    let store = with_meta(&[
        ("last_commit", "abc"),
        ("phase_b_commit", "abc"),
        ("phase_b_dirty", "0"),
    ]);
    assert!(phase_b_degraded_note(&store).is_none());
}

#[test]
fn append_read_notes_emits_head_note_only_on_drift() {
    let store = with_meta(&[("last_commit", "idx0000"), ("phase_b_commit", "idx0000")]);
    let out = append_read_notes(&store, "real result".to_string(), Some("chk1111"));
    assert!(out.starts_with("real result"), "body preserved: {out}");
    assert!(
        out.contains("idx0000") && out.contains("chk1111"),
        "got: {out}"
    );
    assert_eq!(
        append_read_notes(&store, "real result".to_string(), Some("idx0000")),
        "real result"
    );
    assert_eq!(
        append_read_notes(&store, "real result".to_string(), None),
        "real result"
    );
}

#[test]
fn append_read_notes_empty_body_becomes_head_note() {
    let store = with_meta(&[("last_commit", "idx0000"), ("phase_b_commit", "idx0000")]);
    let out = append_read_notes(&store, String::new(), Some("chk1111"));
    assert!(out.starts_with("[note:"), "note is the body: {out}");
    assert!(
        !out.contains("\n[note:"),
        "no empty line before the note: {out}"
    );
}

#[test]
fn append_read_notes_phase_b_and_head_notes_coexist() {
    let store = with_meta(&[("last_commit", "idx0000"), ("phase_b_commit", "old9999")]);
    let out = append_read_notes(&store, "body".to_string(), Some("chk1111"));
    assert!(
        out.contains("call-graph index incomplete"),
        "phase-b note: {out}"
    );
    assert!(out.contains("chk1111"), "head note: {out}");
}

#[test]
fn append_head_note_emits_head_note_only_on_drift() {
    let store = with_meta(&[("last_commit", "idx0000"), ("phase_b_commit", "old9999")]);
    let out = append_head_note(&store, "real result".to_string(), Some("chk1111"));
    assert!(out.starts_with("real result"), "body preserved: {out}");
    assert!(
        out.contains("idx0000") && out.contains("chk1111"),
        "got: {out}"
    );
    assert!(
        !out.contains("call-graph index incomplete"),
        "head-only wrapper must not carry the Phase-B note: {out}"
    );
    assert_eq!(
        append_head_note(&store, "real result".to_string(), Some("idx0000")),
        "real result"
    );
    assert_eq!(
        append_head_note(&store, "real result".to_string(), None),
        "real result"
    );
}

#[test]
fn append_head_note_empty_body_becomes_note() {
    let store = with_meta(&[("last_commit", "idx0000")]);
    let out = append_head_note(&store, String::new(), Some("chk1111"));
    assert!(out.starts_with("[note:"), "note is the body: {out}");
    assert!(
        !out.contains('\n'),
        "no leading newline before the note: {out}"
    );
}

#[test]
fn read_note_signals_carry_head_and_phase_b_as_json_array() {
    let store = with_meta(&[("last_commit", "idx0000"), ("phase_b_commit", "old9999")]);
    let signals = read_note_signals(&store, Some("chk1111"));
    assert_eq!(signals.len(), 2, "both signals present: {signals:?}");
    let list: Vec<serde_json::Value> =
        signals.iter().map(|s| serde_json::Value::String(s.clone())).collect();
    let mut out = serde_json::Map::new();
    out.insert("nodes".to_string(), serde_json::Value::Array(vec![]));
    out.insert("edges".to_string(), serde_json::Value::Array(vec![]));
    out.insert("signals".to_string(), serde_json::Value::Array(list));
    let s = serde_json::to_string(&serde_json::Value::Object(out)).unwrap();
    let parsed: serde_json::Value = serde_json::from_str(&s).expect("body must stay valid JSON");
    let arr = parsed["signals"].as_array().unwrap();
    assert!(
        arr.iter()
            .any(|v| v.as_str().map(|t| t.contains("chk1111")).unwrap_or(false)),
        "head signal present: {arr:?}"
    );
}

#[test]
fn read_note_signals_empty_when_fresh_and_git_less() {
    let store = with_meta(&[("last_commit", "idx0000"), ("phase_b_commit", "idx0000")]);
    assert!(read_note_signals(&store, None).is_empty());
    assert!(read_note_signals(&store, Some("idx0000")).is_empty());
}

fn alpha_beta() -> Store {
    let mut store = Store::new();
    store.nodes = vec![node(1, "src/a.ts", "fn:alpha"), node(2, "src/b.ts", "fn:beta")];
    for term in ["alpha", "beta", "zzz_nonexistent", "zzz_nope"] {
        record(&mut store, term);
    }
    store
}

#[test]
fn get_execution_path_appends_note_when_phase_b_behind_head() {
    let mut store = with_meta(&[("last_commit", "def456"), ("phase_b_commit", "abc123")]);
    record(&mut store, "alpha");
    record(&mut store, "beta");
    let result = get_execution_path(&store, "alpha", "beta", None);
    assert!(
        result.contains("call-graph index incomplete"),
        "disconnected/no-result path must carry the pending note; got: {result}"
    );
}

#[test]
fn get_execution_path_disconnected_says_no_path_found() {
    let mut store = alpha_beta();
    let around = vec![store.nodes[0].clone()];
    store.path_answers.push(PathAnswer { source: 1, sink: 2, nodes: Some(around) });
    let result = get_execution_path(&store, "alpha", "beta", None);
    assert!(
        result.contains("no path found"),
        "disconnected endpoints must be reported; got: {result}"
    );
    assert!(
        result.contains("fn:alpha") && result.contains("fn:beta"),
        "the resolved signatures confirm resolution succeeded; got: {result}"
    );
}

#[test]
fn get_execution_path_unknown_symbol_says_could_not_resolve() {
    let result = get_execution_path(&alpha_beta(), "alpha", "zzz_nonexistent", None);
    assert!(
        result.contains("could not resolve"),
        "unresolved endpoint must be reported; got: {result}"
    );
    assert!(
        !result.contains("no path found"),
        "must not claim a path search happened; got: {result}"
    );
}

#[test]
fn get_execution_path_denied_matches_not_found() {
    let store = alpha_beta();
    let all: Vec<u64> = vec![1, 2];
    let denied = get_execution_path_with_filter(&store, "alpha", "beta", &all, None);
    let missing = get_execution_path_with_filter(&store, "alpha", "zzz_nope", &all, None);
    let denied_norm = denied.replace("beta", "X").replace("zzz_nope", "X");
    let missing_norm = missing.replace("beta", "X").replace("zzz_nope", "X");
    assert_eq!(
        denied_norm, missing_norm,
        "denied and missing must be indistinguishable"
    );
    assert!(
        denied.contains("could not resolve"),
        "denied case must use the same could-not-resolve message; got: {denied}"
    );
}

#[test]
fn get_execution_path_connected_returns_plain_path() {
    let mut store = alpha_beta();
    store.edges.push(Edge { src: 1, dst: 2, kind: EdgeKind::RefCall });
    let path = store.nodes.clone();
    store.path_answers.push(PathAnswer { source: 1, sink: 2, nodes: Some(path) });
    let result = get_execution_path(&store, "alpha", "beta", None);
    assert!(
        result.contains("fn:alpha") && result.contains("fn:beta"),
        "path endpoints must appear; got: {result}"
    );
    assert!(
        !result.contains("no path found") && !result.contains("could not resolve"),
        "successful path must carry no diagnostics; got: {result}"
    );
}

#[test]
fn a_printed_commit_is_read() {
    assert_eq!(git_short_head(true, "abc1234\n"), Some("abc1234".to_string()));
    assert_eq!(git_short_head(true, " \n"), None);
    assert_eq!(git_short_head(false, "abc1234\n"), None);
}
