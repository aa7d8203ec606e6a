//! Textual search, confined to the files of the graph.

use vstd::prelude::*;

use crate::blast::components_of;
use crate::global::{attribute, collect_global, Repo};
use crate::order::sort_unique;
use crate::refs::FIND_OUTPUT_LIMIT;
use crate::rules::{build_travsrignore_matcher, rule_on};
use crate::sanitize::{
    control, is_valid_arg, is_valid_opt_arg, sanitize_mcp_body_with_limit, validate_mcp_pattern_arg,
    wrap_envelope,
};
use crate::split::{lines_of, split_on, trim_end_char_of, trim_of};
use crate::store::{opt_view, Edge, EdgeKind, GrepOutcome, GrepRecord, Node, Store};
use crate::text::{
    cat2, cat3, chars_of, choose_strings, dec_usize, first_char, has_str, has_suffix, join_strings,
    list_has, same, same_list, string_of, strip_prefix,
};
use crate::width::{byte_len, fit_of};

verus! {

/// The most matches that are listed.
pub const MAX_PATTERN_MATCHES: usize = 500;

/// The most bytes of one listed match.
pub const MAX_MATCH_LINE: usize = 512;

/// The most bytes of paths in one batch.
pub const MAX_ARGV_BYTES: usize = 98_304;

/// The most paths in one batch.
pub const MAX_ARGV_PATHS: usize = 1000;

// ---------------------------------------------------------------- directories that are never searched

/// A directory that is never indexed, whatever the ignore files say: one of the fixed names, or one of
/// the list that the indexer goes by. The list is handed in, so that a search and the index agree on
/// which files there are.
pub open spec fn is_skip_dir(name: Seq<char>, unindexed: Seq<Seq<char>>) -> bool {
    name == ".git"@ || name == ".travsr"@ || name == "target"@ || name == "node_modules"@ || name
        == "dist"@ || name == ".next"@ || name == ".vscode"@ || name == ".vscode-test"@
        || unindexed.contains(name)
}

/// Whether a directory of this name is never indexed. `unindexed` is the indexer's list of directories
/// that it never enters.
pub fn skip_dir(name: &str, unindexed: &Vec<String>) -> (r: bool)
    ensures
        r == is_skip_dir(name@, crate::text::views(unindexed@)),
{
    same(name, ".git") || same(name, ".travsr") || same(name, "target") || same(
        name,
        "node_modules",
    ) || same(name, "dist") || same(name, ".next") || same(name, ".vscode") || same(
        name,
        ".vscode-test",
    ) || list_has(unindexed, name)
}

/// Some component of the path is never indexed.
pub open spec fn in_skip_dir(path: Seq<char>, unindexed: Seq<Seq<char>>) -> bool {
    let c = crate::blast::components(crate::split::split(path, '/', '/'));
    exists|i: int| 0 <= i < c.len() && is_skip_dir(#[trigger] c[i], unindexed)
}

fn is_in_skip_dir(path: &str, unindexed: &Vec<String>) -> (r: bool)
    ensures
        r == in_skip_dir(path@, crate::text::views(unindexed@)),
{
    let ghost fv = crate::text::views(unindexed@);
    let parts = split_on(path, '/', '/');
    let c = components_of(&parts);
    let ghost cv = crate::text::views(c@);
    let mut i: usize = 0;
    while i < c.len()
        invariant
            cv == crate::text::views(c@),
            cv == crate::blast::components(crate::split::split(path@, '/', '/')),
            i <= c@.len(),
            fv == crate::text::views(unindexed@),
            forall|j: int| 0 <= j < i ==> !is_skip_dir(#[trigger] cv[j], fv),
        decreases c@.len() - i,
    {
        assert(cv[i as int] == c@[i as int]@);
        if skip_dir(c[i].as_str(), unindexed) {
            return true;
        }
        i += 1;
    }
    false
}

// ---------------------------------------------------------------- what to search

/// The edges by which one file brings another in.
pub open spec fn imports(kind: EdgeKind) -> bool {
    kind == EdgeKind::Depends || kind == EdgeKind::RefImports || kind == EdgeKind::ResolvesTo
}

/// The files that the edges come from.
pub open spec fn importing_paths(store: Store, edges: Seq<Edge>) -> Seq<Seq<char>>
    decreases edges.len(),
{
    if edges.len() == 0 {
        Seq::empty()
    } else {
        let rest = importing_paths(store, edges.drop_last());
        match store.node(edges.last().src) {
            Some(n) => if imports(edges.last().kind) && n.path@.len() > 0 {
                rest.push(n.path@)
            } else {
                rest
            },
            None => rest,
        }
    }
}

/// The files that bring any of the nodes in.
pub open spec fn all_importing(store: Store, nodes: Seq<Node>) -> Seq<Seq<char>>
    decreases nodes.len(),
{
    if nodes.len() == 0 {
        Seq::empty()
    } else {
        all_importing(store, nodes.drop_last()) + importing_paths(
            store,
            store.arriving(nodes.last().id),
        )
    }
}

/// The files that import a symbol, in order, each once.
pub open spec fn files_importing(store: Store, symbol: Seq<char>) -> Seq<Seq<char>> {
    let nodes = match store.name_hits(symbol) {
        Some(v) => v,
        None => Seq::empty(),
    };
    crate::order::sorted_of(all_importing(store, nodes).to_set())
}

fn importing_paths_of(store: &Store, edges: &Vec<Edge>, out: &mut Vec<String>)
    ensures
        crate::text::views(final(out)@) == crate::text::views(old(out)@) + importing_paths(
            *store,
            edges@,
        ),
{
    let ghost start = crate::text::views(out@);
    let mut i: usize = 0;
    assert(start + importing_paths(*store, edges@.take(0)) =~= start);
    while i < edges.len()
        invariant
            i <= edges@.len(),
            crate::text::views(out@) == start + importing_paths(*store, edges@.take(i as int)),
        decreases edges@.len() - i,
    {
        assert(edges@.take(i + 1).drop_last() =~= edges@.take(i as int));
        let kind = edges[i].kind;
        if kind == EdgeKind::Depends || kind == EdgeKind::RefImports || kind
            == EdgeKind::ResolvesTo {
            if let Some(n) = store.get_node(edges[i].src) {
                if !n.path.as_str().is_empty() {
                    proof {
                        crate::text::lemma_views_push(out@, n.path);
                        let a = importing_paths(*store, edges@.take(i as int));
                        assert((start + a).push(n.path@) =~= start + a.push(n.path@));
                    }
                    out.push(n.path.clone());
                }
            }
        }
        i += 1;
    }
    assert(edges@.take(i as int) =~= edges@);
}

/// The files that import a symbol; `None` where the symbol is no valid argument.
pub fn scope_files_importing(store: &Store, symbol: &str) -> (r: Option<Vec<String>>)
    ensures
        r is Some == crate::sanitize::arg_ok(symbol@),
        r matches Some(v) ==> crate::text::views(v@) == files_importing(*store, symbol@),
{
    if !is_valid_arg(symbol) {
        return None;
    }
    let nodes: Vec<Node> = match store.search_nodes_by_name(symbol) {
        Some(v) => v,
        None => Vec::new(),
    };
    let ghost all = match store.name_hits(symbol@) {
        Some(v) => v,
        None => Seq::empty(),
    };
    assert(nodes@ =~= all);
    let mut files: Vec<String> = Vec::new();
    let mut i: usize = 0;
    assert(crate::text::views(files@) =~= all_importing(*store, all.take(0)));
    while i < nodes.len()
        invariant
            i <= nodes@.len(),
            nodes@ == all,
            crate::text::views(files@) == all_importing(*store, all.take(i as int)),
        decreases nodes@.len() - i,
    {
        assert(all.take(i + 1).drop_last() =~= all.take(i as int));
        let edges = store.edges_to(nodes[i].id);
        importing_paths_of(store, &edges, &mut files);
        i += 1;
    }
    assert(all.take(i as int) =~= all);
    Some(sort_unique(&files))
}

/// The symbol of a scope `files-importing(symbol)`, without surrounding space.
pub open spec fn importing_scope(scope: Seq<char>) -> Option<Seq<char>> {
    match crate::text::after_prefix(scope, "files-importing("@) {
        Some(rest) => if crate::text::ends_with(rest, ")"@) {
            Some(crate::split::trim(rest.take(rest.len() - 1)))
        } else {
            None
        },
        None => None,
    }
}

/// The symbol of a scope that stands for the files that import it.
pub fn importing_scope_of(scope: &str) -> (r: Option<String>)
    ensures
        r is Some == importing_scope(scope@) is Some,
        r matches Some(s) ==> importing_scope(scope@) == Some(s@),
{
    match strip_prefix(scope, "files-importing(") {
        Some(rest) => {
            if has_suffix(rest, ")") {
                let cs = chars_of(rest);
                proof {
                    reveal_strlit(")");
                    assert(cs@.len() >= 1);
                }
                let n: usize = cs.len();
                let inner = string_of(&cs, 0, n - 1);
                assert(cs@.subrange(0, n - 1) =~= rest@.take(rest@.len() - 1));
                Some(trim_of(inner.as_str()))
            } else {
                None
            }
        },
        None => None,
    }
}

/// A path that may lead out of the repository: absolute in any notation, or with a parent step.
pub open spec fn leaves_repo(scope: Seq<char>) -> bool {
    (scope.len() > 0 && (scope[0] == '/' || scope[0] == '\\')) || crate::split::split(
        scope,
        '/',
        '\\',
    ).contains(".."@) || (scope.len() > 1 && (scope[0] as u32) < 128 && scope[1] == ':')
}

fn does_leave_repo(scope: &str) -> (r: bool)
    ensures
        r == leaves_repo(scope@),
{
    let cs = chars_of(scope);
    if cs.len() > 0 && (cs[0] == '/' || cs[0] == '\\') {
        return true;
    }
    if cs.len() > 1 && (cs[0] as u32) < 128 && cs[1] == ':' {
        return true;
    }
    let parts = split_on(scope, '/', '\\');
    crate::text::list_has(&parts, "..")
}

/// The files that import a symbol, without those that lie outside of the repository.
pub open spec fn confined_importing(store: Store, symbol: Seq<char>) -> Seq<Seq<char>> {
    crate::text::chosen(files_importing(store, symbol), |p: Seq<char>| !leaves_repo(p))
}

/// What a request comes to: an answer at once, or a search confined to some paths.
pub enum PlanView {
    Answer(Seq<char>),
    Search(Seq<Seq<char>>),
}

/// A pattern without control characters.
pub open spec fn is_plain(pattern: Seq<char>) -> bool {
    forall|i: int| 0 <= i < pattern.len() ==> !crate::sanitize::is_control(#[trigger] pattern[i])
}

/// The plan of a request.
pub open spec fn plan(store: Store, pattern: Seq<char>, scope: Option<&str>) -> PlanView {
    if crate::sanitize::pattern_verdict(pattern) is Err || pattern.len() == 0 || !is_plain(pattern)
        || !crate::sanitize::opt_arg_ok(scope) {
        PlanView::Answer(Seq::empty())
    } else if crate::notes::filled(store.meta_value("repo_root"@)) is None {
        PlanView::Answer(
            "Pattern search unavailable: run `travsr init` to record the repo root."@,
        )
    } else {
        match scope {
            None => PlanView::Search(Seq::empty()),
            Some(s) => match importing_scope(s@) {
                Some(symbol) => if !crate::sanitize::arg_ok(symbol) {
                    PlanView::Answer(Seq::empty())
                } else if confined_importing(store, symbol).len() == 0 {
                    PlanView::Answer("No files import '"@ + symbol + "'."@)
                } else {
                    PlanView::Search(confined_importing(store, symbol))
                },
                None => if leaves_repo(s@) {
                    PlanView::Answer(Seq::empty())
                } else {
                    PlanView::Search(seq![s@])
                },
            },
        }
    }
}

/// What a request comes to.
#[derive(Debug)]
pub enum PatternPlan {
    /// The answer at once.
    Answer(String),
    /// The paths to search; none for the whole repository.
    Search(Vec<String>),
}

impl View for PatternPlan {
    type V = PlanView;

    open spec fn view(&self) -> PlanView {
        match *self {
            PatternPlan::Answer(s) => PlanView::Answer(s@),
            PatternPlan::Search(v) => PlanView::Search(crate::text::views(v@)),
        }
    }
}

fn no_answer() -> (r: PatternPlan)
    ensures
        r@ == PlanView::Answer(Seq::empty()),
{
    let s = String::new();
    assert(s@ =~= Seq::<char>::empty());
    PatternPlan::Answer(s)
}

fn is_plain_pattern(pattern: &str) -> (r: bool)
    ensures
        r == is_plain(pattern@),
{
    let cs = chars_of(pattern);
    let mut i: usize = 0;
    while i < cs.len()
        invariant
            cs@ == pattern@,
            i <= cs@.len(),
            forall|j: int| 0 <= j < i ==> !crate::sanitize::is_control(#[trigger] pattern@[j]),
        decreases cs@.len() - i,
    {
        if control(cs[i]) {
            assert(crate::sanitize::is_control(pattern@[i as int]));
            return false;
        }
        i += 1;
    }
    true
}

/// Checks a request and resolves its scope to the paths to search.
pub fn find_pattern_plan(store: &Store, pattern: &str, scope: Option<&str>) -> (r: PatternPlan)
    ensures
        r@ == plan(*store, pattern@, scope),
{
    if validate_mcp_pattern_arg(pattern).is_err() || pattern.is_empty() || !is_plain_pattern(pattern)
        || !is_valid_opt_arg(scope) {
        return no_answer();
    }
    let rooted = match store.get_meta("repo_root") {
        Some(v) => !v.as_str().is_empty(),
        None => false,
    };
    if !rooted {
        return PatternPlan::Answer(
            "Pattern search unavailable: run `travsr init` to record the repo root.".to_owned(),
        );
    }
    match scope {
        None => {
            let v: Vec<String> = Vec::new();
            assert(crate::text::views(v@) =~= Seq::<Seq<char>>::empty());
            PatternPlan::Search(v)
        },
        Some(s) => match importing_scope_of(s) {
            Some(symbol) => match scope_files_importing(store, symbol.as_str()) {
                None => no_answer(),
                Some(all) => {
                    let f = |p: &String| -> (b: bool)
                        ensures
                            b == !leaves_repo(p@),
                        { !does_leave_repo(p.as_str()) };
                    let files = choose_strings(&all, f, Ghost(|p: Seq<char>| !leaves_repo(p)));
                    assert(crate::text::views(files@).len() == files@.len());
                    if files.len() == 0 {
                        PatternPlan::Answer(cat3("No files import '", symbol.as_str(), "'."))
                    } else {
                        PatternPlan::Search(files)
                    }
                },
            },
            None => {
                if does_leave_repo(s) {
                    no_answer()
                } else {
                    let mut v: Vec<String> = Vec::new();
                    v.push(s.to_owned());
                    assert(crate::text::views(v@) =~= seq![s@]);
                    PatternPlan::Search(v)
                }
            },
        },
    }
}

// ---------------------------------------------------------------- running the search

/// The arguments of the search tool, as far as they are common: the last one ends the options, so
/// that no path is read as one.
pub open spec fn common_args(pattern: Seq<char>, fixed: bool, threads: nat) -> Seq<Seq<char>> {
    seq![
        "--no-color"@,
        "-n"@,
        "--column"@,
        "-I"@,
        "--threads="@ + crate::text::dec(threads),
        if fixed {
            "-F"@
        } else {
            "-E"@
        },
        "-e"@,
        pattern,
        "--"@,
    ]
}

/// The first search: everything that git can see.
pub open spec fn first_args(
    root: Seq<char>,
    pattern: Seq<char>,
    paths: Seq<Seq<char>>,
    fixed: bool,
    threads: nat,
) -> Seq<Seq<char>> {
    seq!["-C"@, root, "grep"@, "--untracked"@, "--exclude-standard"@] + common_args(
        pattern,
        fixed,
        threads,
    ) + paths
}

/// A later search: given files, whatever git ignores.
pub open spec fn batch_args(
    root: Seq<char>,
    pattern: Seq<char>,
    paths: Seq<Seq<char>>,
    fixed: bool,
    threads: nat,
) -> Seq<Seq<char>> {
    seq!["-C"@, root, "grep"@, "--no-index"@] + common_args(pattern, fixed, threads) + paths
}

fn push_args(
    out: &mut Vec<String>,
    pattern: &str,
    paths: &Vec<String>,
    fixed: bool,
    threads: usize,
)
    ensures
        crate::text::views(final(out)@) == crate::text::views(old(out)@) + common_args(
            pattern@,
            fixed,
            threads as nat,
        ) + crate::text::views(paths@),
{
    let ghost start = crate::text::views(out@);
    let d = dec_usize(threads);
    out.push("--no-color".to_owned());
    out.push("-n".to_owned());
    out.push("--column".to_owned());
    out.push("-I".to_owned());
    out.push(cat2("--threads=", d.as_str()));
    if fixed {
        out.push("-F".to_owned());
    } else {
        out.push("-E".to_owned());
    }
    out.push("-e".to_owned());
    out.push(pattern.to_owned());
    out.push("--".to_owned());
    let ghost head = start + common_args(pattern@, fixed, threads as nat);
    assert(crate::text::views(out@) =~= head);
    let ghost pv = crate::text::views(paths@);
    let mut i: usize = 0;
    assert(head + pv.take(0) =~= head);
    while i < paths.len()
        invariant
            i <= paths@.len(),
            pv == crate::text::views(paths@),
            crate::text::views(out@) == head + pv.take(i as int),
        decreases paths@.len() - i,
    {
        proof {
            crate::text::lemma_views_push(out@, paths@[i as int]);
            assert((head + pv.take(i as int)).push(pv[i as int]) =~= head + pv.take(i + 1));
        }
        out.push(paths[i].clone());
        i += 1;
    }
    assert(pv.take(i as int) =~= pv);
}

/// The arguments of the first search.
pub fn first_pass_args(
    root: &str,
    pattern: &str,
    pathspecs: &Vec<String>,
    fixed: bool,
    threads: usize,
) -> (r: Vec<String>)
    ensures
        crate::text::views(r@) == first_args(
            root@,
            pattern@,
            crate::text::views(pathspecs@),
            fixed,
            threads as nat,
        ),
{
    let mut r: Vec<String> = Vec::new();
    r.push("-C".to_owned());
    r.push(root.to_owned());
    r.push("grep".to_owned());
    r.push("--untracked".to_owned());
    r.push("--exclude-standard".to_owned());
    assert(crate::text::views(r@) =~= seq![
        "-C"@,
        root@,
        "grep"@,
        "--untracked"@,
        "--exclude-standard"@,
    ]);
    push_args(&mut r, pattern, pathspecs, fixed, threads);
    r
}

/// The arguments of the search through one batch of files.
pub fn batch_pass_args(
    root: &str,
    pattern: &str,
    batch: &Vec<String>,
    fixed: bool,
    threads: usize,
) -> (r: Vec<String>)
    ensures
        crate::text::views(r@) == batch_args(
            root@,
            pattern@,
            crate::text::views(batch@),
            fixed,
            threads as nat,
        ),
{
    let mut r: Vec<String> = Vec::new();
    r.push("-C".to_owned());
    r.push(root.to_owned());
    r.push("grep".to_owned());
    r.push("--no-index".to_owned());
    assert(crate::text::views(r@) =~= seq!["-C"@, root@, "grep"@, "--no-index"@]);
    push_args(&mut r, pattern, batch, fixed, threads);
    r
}

/// How one run of the search tool ended.
#[derive(Debug)]
pub enum PassOutput {
    /// The tool could not be started: why.
    SpawnFailed(String),
    /// The tool was stopped after this many seconds.
    TimedOut(u64),
    /// The tool ended with an exit code, if it was not killed.
    Exited { code: Option<i32>, stdout: String, stderr: String },
}

/// What a run gives: its lines, or why it failed. An exit code of one means that nothing matched.
pub open spec fn pass_result(out: PassOutput) -> Result<Seq<Seq<char>>, Seq<char>> {
    match out {
        PassOutput::SpawnFailed(e) => Err("failed to run git grep: "@ + e@),
        PassOutput::TimedOut(s) => Err(
            "pattern search timed out after "@ + crate::text::dec(s as nat) + "s"@,
        ),
        PassOutput::Exited { code, stdout, stderr } => if code == Some(0i32) {
            Ok(crate::split::lines(stdout@))
        } else if code == Some(1i32) {
            Ok(Seq::empty())
        } else if crate::split::lines(stderr@).len() > 0 {
            Err(crate::split::lines(stderr@)[0])
        } else {
            Err("git grep failed"@)
        },
    }
}

/// The lines that a run of the search tool gave, or why it failed.
pub fn grep_pass(out: &PassOutput) -> (r: Result<Vec<String>, String>)
    ensures
        r matches Ok(v) ==> pass_result(*out) == Ok::<Seq<Seq<char>>, Seq<char>>(
            crate::text::views(v@),
        ),
        r matches Err(e) ==> pass_result(*out) == Err::<Seq<Seq<char>>, Seq<char>>(e@),
{
    match out {
        PassOutput::SpawnFailed(e) => Err(cat2("failed to run git grep: ", e.as_str())),
        PassOutput::TimedOut(s) => {
            let d = crate::text::dec_u64(*s);
            Err(cat3("pattern search timed out after ", d.as_str(), "s"))
        },
        PassOutput::Exited { code, stdout, stderr } => match code {
            Some(0) => Ok(lines_of(stdout.as_str())),
            Some(1) => {
                let v: Vec<String> = Vec::new();
                assert(crate::text::views(v@) =~= Seq::<Seq<char>>::empty());
                Ok(v)
            },
            _ => {
                let ls = lines_of(stderr.as_str());
                let ghost lv = crate::split::lines(stderr@);
                assert(lv.len() == ls@.len());
                if ls.len() > 0 {
                    assert(lv[0] == ls@[0]@);
                    Err(ls[0].clone())
                } else {
                    Err("git grep failed".to_owned())
                }
            },
        },
    }
}

// ---------------------------------------------------------------- files that rules include again

/// Some rule includes files again.
pub open spec fn has_negation(contents: Seq<char>) -> bool {
    exists|i: int|
        0 <= i < crate::split::lines(contents).len() && negates(
            #[trigger] crate::split::lines(contents)[i],
        )
}

/// A rule that includes files again.
pub open spec fn negates(line: Seq<char>) -> bool {
    let t = crate::split::trim(line);
    t.len() > 1 && t[0] == '!'
}

/// Whether any rule includes files again. Only then is there anything to list.
pub fn includes_again(contents: &str) -> (r: bool)
    ensures
        r == has_negation(contents@),
{
    let ls = lines_of(contents);
    let ghost lv = crate::split::lines(contents@);
    let mut i: usize = 0;
    while i < ls.len()
        invariant
            lv == crate::text::views(ls@),
            lv == crate::split::lines(contents@),
            i <= ls@.len(),
            forall|j: int| 0 <= j < i ==> !negates(#[trigger] lv[j]),
        decreases ls@.len() - i,
    {
        assert(lv[i as int] == ls@[i as int]@);
        let t = trim_of(ls[i].as_str());
        let cs = chars_of(t.as_str());
        if cs.len() > 1 && cs[0] == '!' {
            assert(negates(lv[i as int]));
            return true;
        }
        i += 1;
    }
    false
}

/// An ignored file that the rules include again, outside the directories that are never indexed.
pub open spec fn is_reincluded(
    root: Seq<char>,
    contents: Seq<char>,
    path: Seq<char>,
    unindexed: Seq<Seq<char>>,
) -> bool {
    path.len() > 0 && !in_skip_dir(path, unindexed) && crate::rules::ruling(root, Some(contents), path)
        == Some(false)
}

/// The files of a listing, separated by NUL, that the rules include again.
pub open spec fn reincluded(
    root: Seq<char>,
    contents: Option<Seq<char>>,
    listing: Option<Seq<char>>,
    unindexed: Seq<Seq<char>>,
) -> Seq<Seq<char>> {
    match (contents, listing) {
        (Some(c), Some(l)) => if has_negation(c) {
            crate::text::chosen(
                crate::split::split(l, '\0', '\0'),
                |p: Seq<char>| is_reincluded(root, c, p, unindexed),
            )
        } else {
            Seq::empty()
        },
        _ => Seq::empty(),
    }
}

/// The files that git ignores and the rules include again. `contents` is the rule file, and
/// `listing` the files that git ignores, separated by NUL. `unindexed` is the indexer's list of
/// directories that it never enters.
pub fn travsrignore_reincluded_files(
    root: &str,
    contents: Option<&str>,
    listing: Option<&str>,
    unindexed: &Vec<String>,
) -> (r: Vec<String>)
    ensures
        crate::text::views(r@) == reincluded(
            root@,
            opt_view(contents),
            opt_view(listing),
            crate::text::views(unindexed@),
        ),
{
    let none: Vec<String> = Vec::new();
    assert(crate::text::views(none@) =~= Seq::<Seq<char>>::empty());
    match (contents, listing) {
        (Some(c), Some(l)) => {
            if !includes_again(c) {
                return none;
            }
            let m = build_travsrignore_matcher(root, contents);
            let paths = split_on(l, '\0', '\0');
            let f = |p: &String| -> (b: bool)
                ensures
                    b == is_reincluded(root@, c@, p@, crate::text::views(unindexed@)),
                {
                    !p.as_str().is_empty() && !is_in_skip_dir(p.as_str(), unindexed) && rule_on(
                        &m,
                        root,
                        p.as_str(),
                    ) == Some(false)
                };
            choose_strings(
                &paths,
                f,
                Ghost(
                    |p: Seq<char>| is_reincluded(root@, c@, p, crate::text::views(unindexed@)),
                ),
            )
        },
        _ => none,
    }
}

/// The path is the scope, or lies below it.
pub open spec fn in_scope(path: Seq<char>, spec: Seq<char>) -> bool {
    let s = crate::split::trim_end_char(spec, '/');
    path == s || crate::text::starts_with(path, s) && path.len() > s.len() && path[s.len() as int]
        == '/'
}

/// The path lies in one of the scopes; without scopes every path does.
pub open spec fn in_scopes(path: Seq<char>, specs: Seq<Seq<char>>) -> bool {
    specs.len() == 0 || exists|i: int| 0 <= i < specs.len() && in_scope(path, #[trigger] specs[i])
}

fn is_in_scope(path: &str, spec: &str) -> (r: bool)
    ensures
        r == in_scope(path@, spec@),
{
    let s = trim_end_char_of(spec, '/');
    if same(path, s.as_str()) {
        return true;
    }
    if !crate::text::has_prefix(path, s.as_str()) {
        return false;
    }
    let cs = chars_of(path);
    let n: usize = chars_of(s.as_str()).len();
    n < cs.len() && cs[n] == '/'
}

fn is_in_scopes(path: &str, specs: &Vec<String>) -> (r: bool)
    ensures
        r == in_scopes(path@, crate::text::views(specs@)),
{
    let ghost sv = crate::text::views(specs@);
    assert(sv.len() == specs@.len());
    if specs.len() == 0 {
        return true;
    }
    let mut i: usize = 0;
    while i < specs.len()
        invariant
            sv == crate::text::views(specs@),
            i <= specs@.len(),
            forall|j: int| 0 <= j < i ==> !in_scope(path@, #[trigger] sv[j]),
        decreases specs@.len() - i,
    {
        assert(sv[i as int] == specs@[i as int]@);
        if is_in_scope(path, specs[i].as_str()) {
            return true;
        }
        i += 1;
    }
    false
}

/// The files that lie in one of the scopes.
pub fn scoped_to_pathspecs(files: Vec<String>, pathspecs: &Vec<String>) -> (r: Vec<String>)
    ensures
        crate::text::views(r@) == crate::text::chosen(
            crate::text::views(files@),
            |p: Seq<char>| in_scopes(p, crate::text::views(pathspecs@)),
        ),
{
    let f = |p: &String| -> (b: bool)
        ensures
            b == in_scopes(p@, crate::text::views(pathspecs@)),
        { is_in_scopes(p.as_str(), pathspecs) };
    choose_strings(
        &files,
        f,
        Ghost(|p: Seq<char>| in_scopes(p, crate::text::views(pathspecs@))),
    )
}

// ---------------------------------------------------------------- batches

/// The bytes that paths take as arguments, each with its end mark.
pub open spec fn argv_bytes(paths: Seq<Seq<char>>) -> nat
    decreases paths.len(),
{
    if paths.len() == 0 {
        0
    } else {
        argv_bytes(paths.drop_last()) + crate::width::blen(paths.last()) + 1
    }
}

/// The batch has no room for the path.
pub open spec fn is_full(batch: Seq<Seq<char>>, path: Seq<char>) -> bool {
    argv_bytes(batch) + crate::width::blen(path) + 1 > MAX_ARGV_BYTES || batch.len()
        >= MAX_ARGV_PATHS
}

/// The paths in batches, each filled up before the next is begun.
pub open spec fn batches(paths: Seq<Seq<char>>) -> Seq<Seq<Seq<char>>>
    decreases paths.len(),
{
    if paths.len() == 0 {
        Seq::empty()
    } else {
        let b = batches(paths.drop_last());
        if b.len() == 0 || is_full(b.last(), paths.last()) {
            b.push(seq![paths.last()])
        } else {
            b.drop_last().push(b.last().push(paths.last()))
        }
    }
}

pub open spec fn batch_views(v: Seq<Vec<String>>) -> Seq<Seq<Seq<char>>> {
    Seq::new(v.len(), |i: int| crate::text::views(v[i]@))
}

/// Splits paths into batches that fit in one argument list.
pub fn argv_chunks(files: &Vec<String>) -> (r: Vec<Vec<String>>)
    ensures
        batch_views(r@) == batches(crate::text::views(files@)),
{
    let ghost all = crate::text::views(files@);
    let mut done: Vec<Vec<String>> = Vec::new();
    let mut cur: Vec<String> = Vec::new();
    let mut bytes: u128 = 0;
    let mut i: usize = 0;
    assert(crate::text::views(cur@) =~= Seq::<Seq<char>>::empty());
    assert(batch_views(done@) =~= Seq::<Seq<Seq<char>>>::empty());
    while i < files.len()
        invariant
            i <= files@.len(),
            all == crate::text::views(files@),
            i == 0 ==> cur@.len() == 0 && done@.len() == 0 && bytes == 0,
            i > 0 ==> cur@.len() > 0,
            cur@.len() > 0 ==> batches(all.take(i as int)) == batch_views(done@).push(
                crate::text::views(cur@),
            ),
            cur@.len() == 0 ==> i == 0,
            bytes == argv_bytes(crate::text::views(cur@)),
            cur@.len() > 1 ==> bytes <= MAX_ARGV_BYTES,
            bytes <= 0x2_0000_0000_0000_0000,
        decreases files@.len() - i,
    {
        let ghost was = batches(all.take(i as int));
        let size: usize = byte_len(files[i].as_str());
        let cost: u128 = size as u128 + 1;
        let ghost x = files@[i as int]@;
        proof {
            assert(all.take(i + 1).drop_last() =~= all.take(i as int));
            assert(all.take(i + 1).last() == x);
            if i == 0 {
                assert(all.take(0) =~= Seq::<Seq<char>>::empty());
                assert(was.len() == 0);
            } else {
                assert(was.last() == crate::text::views(cur@));
            }
            assert(crate::text::views(cur@).len() == cur@.len());
        }
        if i > 0 && (bytes + cost > MAX_ARGV_BYTES as u128 || cur.len() >= MAX_ARGV_PATHS) {
            let ghost dv = batch_views(done@);
            let ghost cv = crate::text::views(cur@);
            done.push(cur);
            assert(batch_views(done@) =~= dv.push(cv));
            cur = Vec::new();
            bytes = 0;
            assert(crate::text::views(cur@) =~= Seq::<Seq<char>>::empty());
        }
        let ghost cv = crate::text::views(cur@);
        proof {
            crate::text::lemma_views_push(cur@, files@[i as int]);
            assert(cv.push(x).drop_last() =~= cv);
            assert(argv_bytes(cv.push(x)) == argv_bytes(cv) + crate::width::blen(x) + 1);
        }
        cur.push(files[i].clone());
        bytes = bytes + cost;
        proof {
            let now = batches(all.take(i + 1));
            if cv.len() == 0 {
                assert(cv.push(x) =~= seq![x]);
                assert(now =~= batch_views(done@).push(crate::text::views(cur@)));
            } else {
                assert(was.drop_last() =~= batch_views(done@));
                assert(now =~= batch_views(done@).push(crate::text::views(cur@)));
            }
        }
        i += 1;
    }
    assert(all.take(i as int) =~= all);
    if cur.len() > 0 {
        let ghost dv = batch_views(done@);
        let ghost cv = crate::text::views(cur@);
        done.push(cur);
        assert(batch_views(done@) =~= dv.push(cv));
    } else {
        assert(batch_views(done@) =~= batches(all));
    }
    done
}

/// The batches to search after the first search: the files that the rules include again, as far as
/// they lie in the wanted scope.
pub fn second_pass(
    root: &str,
    contents: Option<&str>,
    listing: Option<&str>,
    pathspecs: &Vec<String>,
    unindexed: &Vec<String>,
) -> (r: Vec<Vec<String>>)
    ensures
        batch_views(r@) == batches(
            crate::text::chosen(
                reincluded(
                    root@,
                    opt_view(contents),
                    opt_view(listing),
                    crate::text::views(unindexed@),
                ),
                |p: Seq<char>| in_scopes(p, crate::text::views(pathspecs@)),
            ),
        ),
{
    let files = travsrignore_reincluded_files(root, contents, listing, unindexed);
    let wanted = scoped_to_pathspecs(files, pathspecs);
    argv_chunks(&wanted)
}

// ---------------------------------------------------------------- the outcome

/// The lines of the runs up to the first that failed, and why that one failed.
pub open spec fn collected(outs: Seq<PassOutput>) -> (Seq<Seq<char>>, Option<Seq<char>>)
    decreases outs.len(),
{
    if outs.len() == 0 {
        (Seq::empty(), None)
    } else {
        let c = collected(outs.drop_last());
        if c.1 is Some {
            c
        } else {
            match pass_result(outs.last()) {
                Ok(ls) => (c.0 + ls, None),
                Err(e) => (c.0, Some(e)),
            }
        }
    }
}

/// The path of a match line: what stands before the first colon.
pub open spec fn match_path(line: Seq<char>) -> Seq<char> {
    match crate::text::first_of(line, ':') {
        Some(i) => line.take(i),
        None => line,
    }
}

/// A match in a file of the graph: not in a directory that is never indexed, and not ignored by the
/// rules. A line without a path is kept.
pub open spec fn is_indexed_match(
    root: Seq<char>,
    contents: Option<Seq<char>>,
    line: Seq<char>,
    unindexed: Seq<Seq<char>>,
) -> bool {
    let path = match_path(line);
    path.len() == 0 || (!in_skip_dir(path, unindexed) && crate::rules::ruling(root, contents, path)
        != Some(true))
}

/// A match as it is listed: a long line is cut.
pub open spec fn match_line(line: Seq<char>) -> Seq<char> {
    if crate::width::blen(line) > MAX_MATCH_LINE {
        crate::width::fit(line, MAX_MATCH_LINE as nat) + " …[line truncated]"@
    } else {
        line
    }
}

/// The listed matches.
pub open spec fn match_list(all: Seq<Seq<char>>) -> Seq<char> {
    let shown = if all.len() > MAX_PATTERN_MATCHES {
        MAX_PATTERN_MATCHES as nat
    } else {
        all.len()
    };
    let rows = seq![crate::text::dec(all.len()) + " match(es):"@] + Seq::new(
        shown,
        |i: int| match_line(all[i]),
    );
    crate::text::join(
        if all.len() > shown {
            rows.push(
                "[truncated: showing "@ + crate::text::dec(shown) + " of "@ + crate::text::dec(
                    all.len(),
                ) + " matches]"@,
            )
        } else {
            rows
        },
        "\n"@,
    )
}

/// What a search gave, as values.
pub enum OutcomeView {
    Matches(Seq<char>),
    NoMatches,
    Error(Seq<char>),
}

impl View for GrepOutcome {
    type V = OutcomeView;

    open spec fn view(&self) -> OutcomeView {
        match *self {
            GrepOutcome::Matches(s) => OutcomeView::Matches(s@),
            GrepOutcome::NoMatches => OutcomeView::NoMatches,
            GrepOutcome::Error(s) => OutcomeView::Error(s@),
        }
    }
}

/// The outcome of a search: an error where the first run failed, or a later one with nothing found;
/// else the matches in files of the graph.
pub open spec fn outcome(
    root: Seq<char>,
    contents: Option<Seq<char>>,
    first: PassOutput,
    rest: Seq<PassOutput>,
    unindexed: Seq<Seq<char>>,
) -> OutcomeView {
    match pass_result(first) {
        Err(e) => OutcomeView::Error(e),
        Ok(ls) => {
            let (more, failed) = collected(rest);
            let all = ls + more;
            let kept = crate::text::chosen(
                all,
                |l: Seq<char>| is_indexed_match(root, contents, l, unindexed),
            );
            if failed is Some && all.len() == 0 {
                OutcomeView::Error(failed->0)
            } else if kept.len() == 0 {
                OutcomeView::NoMatches
            } else {
                OutcomeView::Matches(match_list(kept))
            }
        },
    }
}

fn match_line_of(line: &str) -> (r: String)
    ensures
        r@ == match_line(line@),
{
    if byte_len(line) > MAX_MATCH_LINE {
        let cut = fit_of(line, MAX_MATCH_LINE);
        cat2(cut.as_str(), " …[line truncated]")
    } else {
        line.to_owned()
    }
}

fn match_list_of(all: &Vec<String>) -> (r: String)
    ensures
        r@ == match_list(crate::text::views(all@)),
{
    let ghost av = crate::text::views(all@);
    assert(av.len() == all@.len());
    let total: usize = all.len();
    let shown: usize = if total > MAX_PATTERN_MATCHES {
        MAX_PATTERN_MATCHES
    } else {
        total
    };
    let t = dec_usize(total);
    let mut lines: Vec<String> = Vec::new();
    lines.push(cat2(t.as_str(), " match(es):"));
    let ghost head = seq![crate::text::dec(av.len()) + " match(es):"@];
    let ghost rows = Seq::new(shown as nat, |i: int| match_line(av[i]));
    assert(crate::text::views(lines@) =~= head + rows.take(0));
    let mut i: usize = 0;
    while i < shown
        invariant
            i <= shown <= all@.len(),
            av == crate::text::views(all@),
            rows == Seq::new(shown as nat, |i: int| match_line(av[i])),
            crate::text::views(lines@) == head + rows.take(i as int),
        decreases shown - i,
    {
        assert(av[i as int] == all@[i as int]@);
        let s = match_line_of(all[i].as_str());
        proof {
            crate::text::lemma_views_push(lines@, s);
            assert((head + rows.take(i as int)).push(rows[i as int]) =~= head + rows.take(i + 1));
        }
        lines.push(s);
        i += 1;
    }
    assert(rows.take(i as int) =~= rows);
    if total > shown {
        let a = dec_usize(shown);
        let mut s = cat3("[truncated: showing ", a.as_str(), " of ");
        s.append(t.as_str());
        s.append(" matches]");
        proof {
            crate::text::lemma_views_push(lines@, s);
        }
        lines.push(s);
    }
    join_strings(&lines, "\n")
}

fn is_match_indexed(
    m: &Option<ignore::gitignore::Gitignore>,
    root: &str,
    contents: Option<&str>,
    line: &str,
    unindexed: &Vec<String>,
) -> (r: bool)
    requires
        m is Some == (contents matches Some(c) && crate::rules::rules_build(
            root@,
            crate::rules::rule_lines(c@),
        )),
        *m matches Some(x) ==> crate::rules::matcher_root(x) == root@ && (contents matches Some(c)
            && crate::rules::matcher_lines(x) == crate::rules::rule_lines(c@)),
    ensures
        r == is_indexed_match(
            root@,
            opt_view(contents),
            line@,
            crate::text::views(unindexed@),
        ),
{
    let cs = chars_of(line);
    let path = match first_char(&cs, ':') {
        Some(i) => {
            let s = string_of(&cs, 0, i);
            assert(cs@.subrange(0, i as int) =~= line@.take(i as int));
            s
        },
        None => line.to_owned(),
    };
    if path.as_str().is_empty() {
        return true;
    }
    !is_in_skip_dir(path.as_str(), unindexed) && rule_on(m, root, path.as_str()) != Some(true)
}

/// The outcome of a search from its runs: `first`, then one per batch, up to the first that failed.
/// `contents` is the rule file of the repository, and `unindexed` the indexer's list of directories that
/// it never enters.
pub fn run_git_grep(
    root: &str,
    contents: Option<&str>,
    first: &PassOutput,
    rest: &Vec<PassOutput>,
    unindexed: &Vec<String>,
) -> (r: GrepOutcome)
    ensures
        r@ == outcome(
            root@,
            opt_view(contents),
            *first,
            rest@,
            crate::text::views(unindexed@),
        ),
{
    let mut all: Vec<String> = match grep_pass(first) {
        Ok(v) => v,
        Err(e) => return GrepOutcome::Error(e),
    };
    let ghost start = crate::text::views(all@);
    let mut failed: Option<String> = None;
    let mut i: usize = 0;
    assert(start + collected(rest@.take(0)).0 =~= start);
    while i < rest.len()
        invariant
            i <= rest@.len(),
            crate::text::views(all@) == start + collected(rest@.take(i as int)).0,
            failed is Some == collected(rest@.take(i as int)).1 is Some,
            failed matches Some(e) ==> collected(rest@.take(i as int)).1 == Some(e@),
        decreases rest@.len() - i,
    {
        assert(rest@.take(i + 1).drop_last() =~= rest@.take(i as int));
        if failed.is_none() {
            match grep_pass(&rest[i]) {
                Ok(v) => {
                    let mut more = v;
                    let ghost a = all@;
                    let ghost b = more@;
                    all.append(&mut more);
                    assert(crate::text::views(a + b) =~= crate::text::views(a)
                        + crate::text::views(b));
                    assert(crate::text::views(all@) =~= start + collected(
                        rest@.take(i + 1),
                    ).0);
                },
                Err(e) => {
                    failed = Some(e);
                },
            }
        }
        i += 1;
    }
    assert(rest@.take(i as int) =~= rest@);
    assert(crate::text::views(all@).len() == all@.len());
    if let Some(e) = failed {
        if all.len() == 0 {
            return GrepOutcome::Error(e);
        }
    }
    let m = build_travsrignore_matcher(root, contents);
    let f = |l: &String| -> (b: bool)
        ensures
            b == is_indexed_match(
                root@,
                opt_view(contents),
                l@,
                crate::text::views(unindexed@),
            ),
        { is_match_indexed(&m, root, contents, l.as_str(), unindexed) };
    let kept = choose_strings(
        &all,
        f,
        Ghost(
            |l: Seq<char>|
                is_indexed_match(root@, opt_view(contents), l, crate::text::views(unindexed@)),
        ),
    );
    assert(crate::text::views(kept@).len() == kept@.len());
    if kept.len() == 0 {
        return GrepOutcome::NoMatches;
    }
    GrepOutcome::Matches(match_list_of(&kept))
}

// ---------------------------------------------------------------- the answer

/// The first construct of the pattern that another regular-expression syntax knows and this one
/// does not.
pub open spec fn foreign_construct(pattern: Seq<char>) -> Option<Seq<char>> {
    if crate::text::contains(pattern, "\\b"@) {
        Some("\\b"@)
    } else if crate::text::contains(pattern, "\\B"@) {
        Some("\\B"@)
    } else if crate::text::contains(pattern, "\\d"@) {
        Some("\\d"@)
    } else if crate::text::contains(pattern, "\\D"@) {
        Some("\\D"@)
    } else if crate::text::contains(pattern, "\\w"@) {
        Some("\\w"@)
    } else if crate::text::contains(pattern, "\\W"@) {
        Some("\\W"@)
    } else if crate::text::contains(pattern, "\\s"@) {
        Some("\\s"@)
    } else if crate::text::contains(pattern, "\\S"@) {
        Some("\\S"@)
    } else if crate::text::contains(pattern, "(?"@) {
        Some("(?"@)
    } else {
        None
    }
}

/// What to try instead of a word boundary.
pub open spec fn boundary_hint(pattern: Seq<char>) -> Seq<char> {
    if crate::text::contains(pattern, "\\b"@) || crate::text::contains(pattern, "\\B"@) {
        " Try [[:<:]] or a character class."@
    } else {
        Seq::empty()
    }
}

/// The note on a construct that the search does not support.
pub open spec fn advisory(pattern: Seq<char>) -> Option<Seq<char>> {
    match foreign_construct(pattern) {
        Some(c) => Some(
            "note: `"@ + c
                + "` is a PCRE construct; travsr pattern uses POSIX ERE, where it is not supported."@
                + boundary_hint(pattern),
        ),
        None => None,
    }
}

fn foreign_construct_of(pattern: &str) -> (r: Option<&'static str>)
    ensures
        r is Some == foreign_construct(pattern@) is Some,
        r matches Some(c) ==> foreign_construct(pattern@) == Some(c@),
{
    if has_str(pattern, "\\b") {
        Some("\\b")
    } else if has_str(pattern, "\\B") {
        Some("\\B")
    } else if has_str(pattern, "\\d") {
        Some("\\d")
    } else if has_str(pattern, "\\D") {
        Some("\\D")
    } else if has_str(pattern, "\\w") {
        Some("\\w")
    } else if has_str(pattern, "\\W") {
        Some("\\W")
    } else if has_str(pattern, "\\s") {
        Some("\\s")
    } else if has_str(pattern, "\\S") {
        Some("\\S")
    } else if has_str(pattern, "(?") {
        Some("(?")
    } else {
        None
    }
}

/// The note on a construct of another regular-expression syntax, which would silently match nothing.
pub fn pcre_only_advisory(pattern: &str) -> (r: Option<String>)
    ensures
        r is Some == advisory(pattern@) is Some,
        r matches Some(s) ==> advisory(pattern@) == Some(s@),
{
    match foreign_construct_of(pattern) {
        Some(c) => {
            let mut s = cat3(
                "note: `",
                c,
                "` is a PCRE construct; travsr pattern uses POSIX ERE, where it is not supported.",
            );
            let ghost before = s@;
            if has_str(pattern, "\\b") || has_str(pattern, "\\B") {
                s.append(" Try [[:<:]] or a character class.");
            }
            assert(s@ =~= before + boundary_hint(pattern@));
            Some(s)
        },
        None => None,
    }
}

/// The outcome recorded for a search.
pub open spec fn recorded(
    greps: Seq<GrepRecord>,
    pattern: Seq<char>,
    paths: Seq<Seq<char>>,
    fixed: bool,
) -> OutcomeView
    decreases greps.len(),
{
    if greps.len() == 0 {
        OutcomeView::Error("pattern search was not run"@)
    } else {
        let g = greps.last();
        if g.pattern@ == pattern && crate::text::views(g.pathspecs@) == paths && g.fixed == fixed {
            g.outcome@
        } else {
            recorded(greps.drop_last(), pattern, paths, fixed)
        }
    }
}

/// The text of an outcome.
pub open spec fn outcome_text(o: OutcomeView, pattern: Seq<char>) -> Seq<char> {
    match o {
        OutcomeView::Matches(s) => s,
        OutcomeView::NoMatches => match advisory(pattern) {
            Some(n) => "no matches. "@ + n,
            None => Seq::empty(),
        },
        OutcomeView::Error(d) => "pattern error: "@ + d
            + ", the pattern is POSIX ERE; use --fixed for a literal search, or escape metacharacters."@,
    }
}

/// The answer to a textual search.
pub open spec fn pattern_answer(
    store: Store,
    pattern: Seq<char>,
    scope: Option<&str>,
    fixed: bool,
) -> Seq<char> {
    match plan(store, pattern, scope) {
        PlanView::Answer(s) => s,
        PlanView::Search(paths) => outcome_text(
            recorded(store.greps@, pattern, paths, fixed),
            pattern,
        ),
    }
}

/// What to say about the outcome of a search. Nothing where nothing matched, unless the pattern uses
/// a construct that the search does not support.
pub fn outcome_answer(outcome: &GrepOutcome, pattern: &str) -> (r: String)
    ensures
        r@ == outcome_text(outcome@, pattern@),
{
    match outcome {
        GrepOutcome::Matches(s) => s.clone(),
        GrepOutcome::NoMatches => match pcre_only_advisory(pattern) {
            Some(n) => cat2("no matches. ", n.as_str()),
            None => String::new(),
        },
        GrepOutcome::Error(d) => cat3(
            "pattern error: ",
            d.as_str(),
            ", the pattern is POSIX ERE; use --fixed for a literal search, or escape metacharacters.",
        ),
    }
}

/// The answer to a textual search, as it is. The search that the plan of the request names has been
/// run and is recorded.
pub fn find_pattern_raw(store: &Store, pattern: &str, scope: Option<&str>, fixed: bool) -> (r:
    String)
    ensures
        r@ == pattern_answer(*store, pattern@, scope, fixed),
{
    let paths: Vec<String> = match find_pattern_plan(store, pattern, scope) {
        PatternPlan::Answer(s) => return s,
        PatternPlan::Search(v) => v,
    };
    let ghost pv = crate::text::views(paths@);
    let mut i: usize = store.greps.len();
    assert(store.greps@.take(i as int) =~= store.greps@);
    while i > 0
        invariant
            i <= store.greps@.len(),
            pv == crate::text::views(paths@),
            plan(*store, pattern@, scope) == PlanView::Search(pv),
            recorded(store.greps@, pattern@, pv, fixed) == recorded(
                store.greps@.take(i as int),
                pattern@,
                pv,
                fixed,
            ),
        decreases i,
    {
        let g = &store.greps[i - 1];
        if same(g.pattern.as_str(), pattern) && same_list(&g.pathspecs, &paths) && g.fixed == fixed {
            return outcome_answer(&g.outcome, pattern);
        }
        i -= 1;
        assert(store.greps@.take(i + 1).drop_last() =~= store.greps@.take(i as int));
    }
    let missing = GrepOutcome::Error("pattern search was not run".to_owned());
    outcome_answer(&missing, pattern)
}

/// The answer to a textual search, in the envelope.
pub fn find_pattern(store: &Store, pattern: &str, scope: Option<&str>, fixed: bool) -> (r: String)
    ensures
        r@ == crate::sanitize::envelope(
            crate::sanitize::body(
                pattern_answer(*store, pattern@, scope, fixed),
                FIND_OUTPUT_LIMIT as nat,
            ),
        ),
{
    let raw = find_pattern_raw(store, pattern, scope, fixed);
    let body = sanitize_mcp_body_with_limit(raw.as_str(), FIND_OUTPUT_LIMIT);
    wrap_envelope(body.as_str())
}

/// The part of one repository in an answer over several.
pub open spec fn pattern_part(
    repo: Repo,
    store: Store,
    single: bool,
    pattern: Seq<char>,
    scope: Option<&str>,
    fixed: bool,
) -> Seq<char> {
    crate::global::attributed(repo.name@, pattern_answer(store, pattern, scope, fixed), single)
}

/// What each repository gives.
pub open spec fn pattern_parts(pattern: Seq<char>, scope: Option<&str>, fixed: bool) -> spec_fn(Repo, Store, bool) -> Seq<char> {
    |r: Repo, s: Store, single: bool| pattern_part(r, s, single, pattern, scope, fixed)
}

/// The answer over the registered repositories.
pub open spec fn pattern_global(
    repos: Seq<Repo>,
    pattern: Seq<char>,
    scope: Option<&str>,
    repo: Option<Seq<char>>,
    fixed: bool,
) -> Seq<char> {
    if crate::sanitize::pattern_verdict(pattern) is Ok && crate::sanitize::opt_arg_ok(scope) {
        crate::sanitize::envelope(
            crate::sanitize::body(
                crate::global::gathered(
                    repos,
                    repo,
                    pattern_parts(pattern, scope, fixed),
                ),
                FIND_OUTPUT_LIMIT as nat,
            ),
        )
    } else {
        Seq::empty()
    }
}

/// A textual search in one named repository, or in all.
pub fn find_pattern_global(
    repos: &Vec<Repo>,
    pattern: &str,
    scope: Option<&str>,
    repo: Option<&str>,
    fixed: bool,
) -> (r: String)
    ensures
        r@ == pattern_global(repos@, pattern@, scope, opt_view(repo), fixed),
{
    if validate_mcp_pattern_arg(pattern).is_err() || !is_valid_opt_arg(scope) {
        return String::new();
    }
    let f = |x: &Repo, s: &Store, single: bool| -> (o: String)
        ensures
            o@ == pattern_part(*x, *s, single, pattern@, scope, fixed),
        {
            let raw = find_pattern_raw(s, pattern, scope, fixed);
            attribute(x.name.as_str(), raw, single)
        };
    let raw = collect_global(
        repos,
        repo,
        f,
        Ghost(pattern_parts(pattern@, scope, fixed)),
    );
    let body = sanitize_mcp_body_with_limit(raw.as_str(), FIND_OUTPUT_LIMIT);
    wrap_envelope(body.as_str())
}

// ---------------------------------------------------------------- laws

/// All paths of some batches, in order.
pub open spec fn flat(b: Seq<Seq<Seq<char>>>) -> Seq<Seq<char>>
    decreases b.len(),
{
    if b.len() == 0 {
        Seq::empty()
    } else {
        flat(b.drop_last()) + b.last()
    }
}

/// A batch that one argument list can hold; a single path always is one.
pub open spec fn is_fitting(b: Seq<Seq<char>>) -> bool {
    1 <= b.len() <= MAX_ARGV_PATHS && (b.len() == 1 || argv_bytes(b) <= MAX_ARGV_BYTES)
}

/// The batches hold every path once and in order, and each fits in one argument list.
pub proof fn law_batches_hold_every_path(paths: Seq<Seq<char>>)
    ensures
        flat(batches(paths)) == paths,
        forall|i: int| 0 <= i < batches(paths).len() ==> is_fitting(#[trigger] batches(paths)[i]),
    decreases paths.len(),
{
    if paths.len() > 0 {
        let p = paths.drop_last();
        let x = paths.last();
        law_batches_hold_every_path(p);
        let b = batches(p);
        let n = batches(paths);
        assert(paths =~= p.push(x));
        if b.len() == 0 || is_full(b.last(), x) {
            assert(n.drop_last() =~= b);
            assert(flat(b) + seq![x] =~= paths);
        } else {
            assert(n.drop_last() =~= b.drop_last());
            assert(flat(b.drop_last()) + b.last().push(x) =~= (flat(b.drop_last()) + b.last()).push(
                x,
            ));
            assert(b.last().push(x).drop_last() =~= b.last());
            assert(is_fitting(b[b.len() - 1]));
        }
        assert forall|i: int| 0 <= i < n.len() implies is_fitting(#[trigger] n[i]) by {
            if i < b.len() - 1 || (i < b.len() && (b.len() == 0 || is_full(b.last(), x))) {
                assert(n[i] == b[i]);
            }
        }
    }
}

/// A match in a directory that is never indexed, or in a file that the rules ignore, is not counted.
pub proof fn law_only_indexed_files_match(
    root: Seq<char>,
    contents: Option<Seq<char>>,
    all: Seq<Seq<char>>,
    i: int,
    unindexed: Seq<Seq<char>>,
)
    requires
        0 <= i < all.len(),
        match_path(all[i]).len() > 0,
        in_skip_dir(match_path(all[i]), unindexed) || crate::rules::ruling(
            root,
            contents,
            match_path(all[i]),
        ) == Some(true),
    ensures
        !crate::text::chosen(
            all,
            |l: Seq<char>| is_indexed_match(root, contents, l, unindexed),
        ).contains(all[i]),
{
    crate::text::lemma_chosen(all, |l: Seq<char>| is_indexed_match(root, contents, l, unindexed));
}

/// A search that could not run is never reported as one without matches.
pub proof fn law_failure_is_never_silent(
    root: Seq<char>,
    contents: Option<Seq<char>>,
    first: PassOutput,
    rest: Seq<PassOutput>,
    unindexed: Seq<Seq<char>>,
)
    requires
        pass_result(first) is Err || (pass_result(first) == Ok::<Seq<Seq<char>>, Seq<char>>(
            Seq::empty(),
        ) && collected(rest).0.len() == 0 && collected(rest).1 is Some),
    ensures
        outcome(root, contents, first, rest, unindexed) is Error,
{
}

/// No search is given a path that leads out of the repository.
pub proof fn law_search_stays_in_the_repository(
    store: Store,
    pattern: Seq<char>,
    scope: Option<&str>,
    i: int,
)
    requires
        plan(store, pattern, scope) is Search,
        0 <= i < plan(store, pattern, scope)->Search_0.len(),
    ensures
        !leaves_repo(plan(store, pattern, scope)->Search_0[i]),
{
    if let Some(s) = scope {
        if let Some(symbol) = importing_scope(s@) {
            let v = confined_importing(store, symbol);
            crate::text::lemma_chosen(
                files_importing(store, symbol),
                |p: Seq<char>| !leaves_repo(p),
            );
            assert(v.contains(v[i]));
        }
    }
}

} // verus!
