//! What an answer to a textual search shows.

use vstd::prelude::*;

use crate::lines::has_line;
use crate::pattern::{
    collected, first_args, is_indexed_match, match_line, match_list, match_path, outcome, pass_result,
    plan, reincluded, OutcomeView, PassOutput, PlanView,
};
use crate::split::{lines, split};
use crate::store::{Edge, EdgeKind, Node, Store};
use crate::text::chosen;

verus! {

// ---------------------------------------------------------------- which files

/// The name of a directory that no index enters.
pub open spec fn is_unindexed(name: Seq<char>, unindexed: Seq<Seq<char>>) -> bool {
    ||| name == ".git"@
    ||| name == ".travsr"@
    ||| name == "target"@
    ||| name == "node_modules"@
    ||| name == "dist"@
    ||| name == ".next"@
    ||| name == ".vscode"@
    ||| name == ".vscode-test"@
    ||| unindexed.contains(name)
}

/// Some part of the path is such a directory.
pub open spec fn has_unindexed(path: Seq<char>, unindexed: Seq<Seq<char>>) -> bool {
    exists|i: int|
        0 <= i < split(path, '/', '/').len() && is_unindexed(
            #[trigger] split(path, '/', '/')[i],
            unindexed,
        )
}

proof fn lemma_components(parts: Seq<Seq<char>>)
    ensures
        forall|x: Seq<char>| #[trigger]
            crate::blast::components(parts).contains(x) <==> parts.contains(x) && x.len() > 0 && x
                != "."@,
    decreases parts.len(),
{
    if parts.len() > 0 {
        let p = parts.drop_last();
        lemma_components(p);
        assert(parts =~= p.push(parts.last()));
        assert forall|x: Seq<char>| #[trigger]
            crate::blast::components(parts).contains(x) <==> parts.contains(x) && x.len() > 0 && x
            != "."@ by {
            crate::store::lemma_push_contains(p, parts.last(), x);
            crate::store::lemma_push_contains(crate::blast::components(p), parts.last(), x);
            assert(crate::blast::components(p).contains(x) <==> p.contains(x) && x.len() > 0 && x
                != "."@);
        }
    }
}

proof fn lemma_skip(path: Seq<char>, unindexed: Seq<Seq<char>>)
    requires
        !unindexed.contains(Seq::empty()),
        !unindexed.contains("."@),
    ensures
        crate::pattern::in_skip_dir(path, unindexed) <==> has_unindexed(path, unindexed),
{
    let parts = split(path, '/', '/');
    let c = crate::blast::components(parts);
    lemma_components(parts);
    if crate::pattern::in_skip_dir(path, unindexed) {
        let i = choose|i: int| 0 <= i < c.len() && crate::pattern::is_skip_dir(#[trigger] c[i], unindexed);
        assert(c.contains(c[i]));
        let j = choose|j: int| 0 <= j < parts.len() && parts[j] == c[i];
        assert(is_unindexed(parts[j], unindexed));
    }
    if has_unindexed(path, unindexed) {
        let j = choose|j: int| 0 <= j < parts.len() && is_unindexed(#[trigger] parts[j], unindexed);
        let x = parts[j];
        reveal_strlit(".");
        reveal_strlit(".git");
        reveal_strlit(".travsr");
        reveal_strlit("target");
        reveal_strlit("node_modules");
        reveal_strlit("dist");
        reveal_strlit(".next");
        reveal_strlit(".vscode");
        reveal_strlit(".vscode-test");
        assert(x.len() > 0) by {
            if x.len() == 0 {
                assert(x =~= Seq::<char>::empty());
            }
        }
        assert(x != "."@);
        assert(parts.contains(x));
        assert(c.contains(x));
        let i = choose|i: int| 0 <= i < c.len() && c[i] == x;
        assert(crate::pattern::is_skip_dir(c[i], unindexed));
    }
}

/// The path of a match: what stands before its first colon.
pub open spec fn is_path_of(line: Seq<char>, path: Seq<char>) -> bool {
    path.is_prefix_of(line) && !path.contains(':') && (path.len() == line.len() || line[path.len() as int]
        == ':')
}

proof fn lemma_match_path(line: Seq<char>, path: Seq<char>)
    requires
        is_path_of(line, path),
    ensures
        match_path(line) == path,
{
    lemma_first_of(line, ':');
    match crate::text::first_of(line, ':') {
        Some(i) => {
            if i < path.len() {
                assert(path[i] == line[i]);
            } else if i > path.len() {
                assert(line[path.len() as int] == ':');
            }
            assert(line.take(i) =~= path);
        },
        None => {
            if path.len() < line.len() {
                assert(line.contains(line[path.len() as int]));
            }
            assert(path =~= line);
        },
    }
}

proof fn lemma_first_of(s: Seq<char>, c: char)
    ensures
        crate::text::first_of(s, c) is None ==> !s.contains(c),
        crate::text::first_of(s, c) matches Some(i) ==> 0 <= i < s.len() && s[i] == c && forall|j: int|
            0 <= j < i ==> s[j] != c,
    decreases s.len(),
{
    if s.len() > 0 {
        let q = s.drop_last();
        lemma_first_of(q, c);
        assert forall|j: int| 0 <= j < q.len() implies s[j] == q[j] by {}
        if crate::text::first_of(s, c) is None && s.contains(c) {
            let j = choose|j: int| 0 <= j < s.len() && s[j] == c;
            assert(q[j] == c);
        }
    }
}

// ---------------------------------------------------------------- which lines

/// The lines that a run printed.
pub open spec fn printed(out: PassOutput) -> Option<Seq<Seq<char>>> {
    match out {
        PassOutput::Exited { code, stdout, stderr } => if code == Some(0i32) {
            Some(lines(stdout@))
        } else if code == Some(1i32) {
            Some(Seq::empty())
        } else {
            None
        },
        _ => None,
    }
}

proof fn lemma_collected(rest: Seq<PassOutput>, k: int, x: Seq<char>)
    requires
        0 <= k < rest.len(),
        forall|j: int| 0 <= j <= k ==> printed(#[trigger] rest[j]) is Some,
        printed(rest[k])->0.contains(x),
    ensures
        collected(rest).0.contains(x),
    decreases rest.len(),
{
    let p = rest.drop_last();
    let c = collected(p);
    if k < p.len() {
        assert forall|j: int| 0 <= j <= k implies printed(#[trigger] p[j]) is Some by {
            assert(p[j] == rest[j]);
        }
        lemma_collected(p, k, x);
        if let Ok(ls) = pass_result(rest.last()) {
            crate::graph_laws::lemma_concat_contains(c.0, ls, x);
        }
    } else {
        assert(rest[k] == rest.last());
        lemma_none_failed(p);
        crate::graph_laws::lemma_concat_contains(c.0, printed(rest[k])->0, x);
    }
}

proof fn lemma_none_failed(rest: Seq<PassOutput>)
    requires
        forall|j: int| 0 <= j < rest.len() ==> printed(#[trigger] rest[j]) is Some,
    ensures
        collected(rest).1 is None,
    decreases rest.len(),
{
    if rest.len() > 0 {
        let p = rest.drop_last();
        assert forall|j: int| 0 <= j < p.len() implies printed(#[trigger] p[j]) is Some by {
            assert(p[j] == rest[j]);
        }
        lemma_none_failed(p);
        assert(printed(rest[rest.len() - 1]) is Some);
    }
}

proof fn lemma_match_list(all: Seq<Seq<char>>, i: int)
    requires
        0 <= i < all.len(),
        i < 500,
    ensures
        has_line(match_list(all), match_line(all[i])),
        has_line(match_list(all), crate::text::dec(all.len()) + " match(es):"@),
        all.len() > 500 ==> has_line(
            match_list(all),
            "[truncated: showing 500 of "@ + crate::text::dec(all.len()) + " matches]"@,
        ),
{
    let shown = if all.len() > 500 {
        500nat
    } else {
        all.len()
    };
    let rows = seq![crate::text::dec(all.len()) + " match(es):"@] + Seq::new(
        shown,
        |i: int| match_line(all[i]),
    );
    let last = "[truncated: showing "@ + crate::text::dec(shown) + " of "@ + crate::text::dec(all.len())
        + " matches]"@;
    let list = if all.len() > shown {
        rows.push(last)
    } else {
        rows
    };
    assert(match_list(all) == crate::text::join(list, "\n"@));
    assert(rows[i + 1] == match_line(all[i]));
    assert(list[i + 1] == rows[i + 1]);
    assert(list[0] == rows[0]);
    crate::lines::lemma_join_has_line(list, i + 1);
    crate::lines::lemma_join_has_line(list, 0);
    if all.len() > 500 {
        lemma_five_hundred();
        assert("[truncated: showing "@ + crate::text::dec(500) + " of "@ =~= "[truncated: showing 500 of "@);
        assert(last =~= "[truncated: showing 500 of "@ + crate::text::dec(all.len()) + " matches]"@);
        crate::lines::lemma_join_has_line(list, rows.len() as int);
    }
}

proof fn lemma_five_hundred()
    ensures
        "[truncated: showing "@ + crate::text::dec(500) + " of "@ =~= "[truncated: showing 500 of "@,
{
    reveal_strlit("[truncated: showing ");
    reveal_strlit(" of ");
    reveal_strlit("[truncated: showing 500 of ");
    reveal_with_fuel(crate::text::dec, 4);
    assert(crate::text::dec(500) =~= seq!['5', '0', '0']);
}

/// Every line that a run of the search printed, up to the first run that failed, is in the answer, unless its file is in a
/// directory that no index enters or is ignored by the rules; as long as there are no more than are listed at most.
/// A line that is too long is cut.
pub proof fn law_every_indexed_match_is_listed(
    root: Seq<char>,
    contents: Option<Seq<char>>,
    first: PassOutput,
    rest: Seq<PassOutput>,
    unindexed: Seq<Seq<char>>,
    x: Seq<char>,
    path: Seq<char>,
)
    requires
        !unindexed.contains(Seq::empty()),
        !unindexed.contains("."@),
        printed(first) is Some,
        printed(first)->0.contains(x) || exists|k: int|
            0 <= k < rest.len() && printed(#[trigger] rest[k]) is Some && printed(rest[k])->0.contains(x)
                && forall|j: int| 0 <= j <= k ==> printed(#[trigger] rest[j]) is Some,
        is_path_of(x, path),
        !has_unindexed(path, unindexed),
        crate::rules::ruling(root, contents, path) != Some(true),
    ensures
        ({
            let o = outcome(root, contents, first, rest, unindexed);
            &&& o is Matches
            &&& ({
                let n = chosen(
                    printed(first)->0 + collected(rest).0,
                    |l: Seq<char>| is_indexed_match(root, contents, l, unindexed),
                ).len();
                &&& has_line(o->Matches_0, crate::text::dec(n) + " match(es):"@)
                &&& n <= 500 && vstd::utf8::encode_utf8(x).len() <= 512 ==> has_line(o->Matches_0, x)
                &&& n > 500 ==> has_line(
                    o->Matches_0,
                    "[truncated: showing 500 of "@ + crate::text::dec(n) + " matches]"@,
                )
            })
        }),
{
    let all = printed(first)->0 + collected(rest).0;
    let p = |l: Seq<char>| is_indexed_match(root, contents, l, unindexed);
    crate::graph_laws::lemma_concat_contains(printed(first)->0, collected(rest).0, x);
    if !printed(first)->0.contains(x) {
        let k = choose|k: int|
            0 <= k < rest.len() && printed(#[trigger] rest[k]) is Some && printed(rest[k])->0.contains(x)
                && forall|j: int| 0 <= j <= k ==> printed(#[trigger] rest[j]) is Some;
        lemma_collected(rest, k, x);
    }
    assert(all.contains(x));
    assert(all.len() > 0);
    lemma_match_path(x, path);
    lemma_skip(path, unindexed);
    crate::text::lemma_chosen(all, p);
    let kept = chosen(all, p);
    assert(p(x));
    assert(kept.contains(x));
    let i = choose|i: int| 0 <= i < kept.len() && kept[i] == x;
    assert(pass_result(first) == Ok::<Seq<Seq<char>>, Seq<char>>(printed(first)->0));
    assert(outcome(root, contents, first, rest, unindexed) == OutcomeView::Matches(match_list(kept)));
    lemma_match_list(kept, 0);
    if i < 500 {
        lemma_match_list(kept, i);
    }
}

/// No match is listed from a directory that no index enters, nor from a file that the rules ignore.
pub proof fn law_no_unindexed_match_is_listed(
    root: Seq<char>,
    contents: Option<Seq<char>>,
    all: Seq<Seq<char>>,
    unindexed: Seq<Seq<char>>,
    x: Seq<char>,
    path: Seq<char>,
)
    requires
        !unindexed.contains(Seq::empty()),
        !unindexed.contains("."@),
        is_path_of(x, path),
        path.len() > 0,
        has_unindexed(path, unindexed) || crate::rules::ruling(root, contents, path) == Some(true),
    ensures
        !chosen(all, |l: Seq<char>| is_indexed_match(root, contents, l, unindexed)).contains(x),
{
    lemma_match_path(x, path);
    lemma_skip(path, unindexed);
    crate::text::lemma_chosen(all, |l: Seq<char>| is_indexed_match(root, contents, l, unindexed));
}

/// Every file of the listing that the rules include again is searched, unless it is in a directory that no index enters.
pub proof fn law_every_included_file_is_searched(
    root: Seq<char>,
    contents: Seq<char>,
    listing: Seq<char>,
    unindexed: Seq<Seq<char>>,
    path: Seq<char>,
)
    requires
        !unindexed.contains(Seq::empty()),
        !unindexed.contains("."@),
        path.len() > 0,
        split(listing, '\0', '\0').contains(path),
        !has_unindexed(path, unindexed),
        crate::pattern::has_negation(contents),
        crate::rules::ruling(root, Some(contents), path) == Some(false),
    ensures
        reincluded(root, Some(contents), Some(listing), unindexed).contains(path),
{
    lemma_skip(path, unindexed);
    crate::text::lemma_chosen(
        split(listing, '\0', '\0'),
        |p: Seq<char>| crate::pattern::is_reincluded(root, contents, p, unindexed),
    );
}

// ---------------------------------------------------------------- where

/// Without a scope the whole repository is searched; with a path as scope, that path.
pub proof fn law_scope_is_searched(store: Store, pattern: Seq<char>, scope: Option<&str>)
    requires
        plan(store, pattern, scope) is Search,
    ensures
        scope is None ==> plan(store, pattern, scope)->Search_0.len() == 0,
        scope matches Some(s) ==> crate::pattern::importing_scope(s@) is None ==> plan(
            store,
            pattern,
            scope,
        )->Search_0 == seq![s@],
{
}

/// No path that is searched is absolute, in any notation, or steps out of its directory.
pub proof fn law_searched_paths_are_relative(
    store: Store,
    pattern: Seq<char>,
    scope: Option<&str>,
    i: int,
)
    requires
        plan(store, pattern, scope) is Search,
        0 <= i < plan(store, pattern, scope)->Search_0.len(),
    ensures
        ({
            let p = plan(store, pattern, scope)->Search_0[i];
            &&& p.len() > 0 ==> p[0] != '/' && p[0] != '\\'
            &&& !split(p, '/', '\\').contains(".."@)
            &&& p.len() > 1 && (p[0] as u32) < 128 ==> p[1] != ':'
        }),
{
    crate::pattern::law_search_stays_in_the_repository(store, pattern, scope, i);
}

proof fn lemma_importing_paths(store: Store, edges: Seq<Edge>, i: int, n: Node)
    requires
        0 <= i < edges.len(),
        edges[i].kind == EdgeKind::Depends || edges[i].kind == EdgeKind::RefImports || edges[i].kind
            == EdgeKind::ResolvesTo,
        store.node(edges[i].src) == Some(n),
        n.path@.len() > 0,
    ensures
        crate::pattern::importing_paths(store, edges).contains(n.path@),
    decreases edges.len(),
{
    let p = edges.drop_last();
    let rest = crate::pattern::importing_paths(store, p);
    if let Some(m) = store.node(edges.last().src) {
        crate::store::lemma_push_contains(rest, m.path@, n.path@);
    }
    if i < p.len() {
        assert(p[i] == edges[i]);
        lemma_importing_paths(store, p, i, n);
    }
}

proof fn lemma_all_importing(store: Store, nodes: Seq<Node>, h: int, x: Seq<char>)
    requires
        0 <= h < nodes.len(),
        crate::pattern::importing_paths(store, store.arriving(nodes[h].id)).contains(x),
    ensures
        crate::pattern::all_importing(store, nodes).contains(x),
    decreases nodes.len(),
{
    let p = nodes.drop_last();
    crate::graph_laws::lemma_concat_contains(
        crate::pattern::all_importing(store, p),
        crate::pattern::importing_paths(store, store.arriving(nodes.last().id)),
        x,
    );
    if h < p.len() {
        assert(p[h] == nodes[h]);
        lemma_all_importing(store, p, h, x);
    }
}

/// Every file with an import of the symbol is in the scope of the files that import it.
pub proof fn law_every_importing_file_is_in_scope(
    store: Store,
    symbol: Seq<char>,
    hits: Seq<Node>,
    h: int,
    i: int,
    n: Node,
)
    requires
        store.name_hits(symbol) == Some(hits),
        0 <= h < hits.len(),
        !store.unread_incoming@.contains(hits[h].id),
        0 <= i < store.edges@.len(),
        store.edges@[i].dst == hits[h].id,
        store.edges@[i].kind == EdgeKind::Depends || store.edges@[i].kind == EdgeKind::RefImports
            || store.edges@[i].kind == EdgeKind::ResolvesTo,
        store.node(store.edges@[i].src) == Some(n),
        n.path@.len() > 0,
    ensures
        crate::pattern::files_importing(store, symbol).contains(n.path@),
        n.path@[0] != '/' && n.path@[0] != '\\' && !split(n.path@, '/', '\\').contains(".."@) && (
        n.path@.len() > 1 && (n.path@[0] as u32) < 128 ==> n.path@[1] != ':')
            ==> crate::pattern::confined_importing(store, symbol).contains(n.path@),
{
    let es = store.arriving(hits[h].id);
    crate::store::lemma_entering(store.edges@, hits[h].id);
    assert(es.contains(store.edges@[i]));
    let j = choose|j: int| 0 <= j < es.len() && es[j] == store.edges@[i];
    lemma_importing_paths(store, es, j, n);
    lemma_all_importing(store, hits, h, n.path@);
    let all = crate::pattern::all_importing(store, hits);
    all.lemma_cardinality_of_set();
    crate::order::law_finite_set_is_sorted(all.to_set());
    let files = crate::pattern::files_importing(store, symbol);
    assert(files.to_set().contains(n.path@));
    assert(files.contains(n.path@));
    crate::text::lemma_chosen(files, |p: Seq<char>| !crate::pattern::leaves_repo(p));
}

/// The search tool is given the pattern behind `-e`, as a literal where that is asked for, and the paths last.
pub proof fn law_search_is_given_the_pattern(
    root: Seq<char>,
    pattern: Seq<char>,
    paths: Seq<Seq<char>>,
    fixed: bool,
    threads: nat,
)
    ensures
        ({
            let a = first_args(root, pattern, paths, fixed, threads);
            let n = a.len() - paths.len();
            &&& a.skip(n) == paths
            &&& a[0] == "-C"@ && a[1] == root && a[2] == "grep"@
            &&& a[n - 1] == "--"@ && a[n - 2] == pattern && a[n - 3] == "-e"@
            &&& a[n - 4] == (if fixed {
                "-F"@
            } else {
                "-E"@
            })
            &&& a.contains("--untracked"@) && a.contains("--exclude-standard"@)
        }),
        ({
            let a = crate::pattern::batch_args(root, pattern, paths, fixed, threads);
            let n = a.len() - paths.len();
            &&& a.skip(n) == paths
            &&& a[0] == "-C"@ && a[1] == root && a[2] == "grep"@ && a[3] == "--no-index"@
            &&& a[n - 1] == "--"@ && a[n - 2] == pattern && a[n - 3] == "-e"@
            &&& a[n - 4] == (if fixed {
                "-F"@
            } else {
                "-E"@
            })
        }),
{
    let a = first_args(root, pattern, paths, fixed, threads);
    let b = crate::pattern::batch_args(root, pattern, paths, fixed, threads);
    let n = a.len() - paths.len();
    let m = b.len() - paths.len();
    assert(a.skip(n) =~= paths);
    assert(b.skip(m) =~= paths);
    assert(a[3] == "--untracked"@);
    assert(a[4] == "--exclude-standard"@);
}

// ---------------------------------------------------------------- the recorded outcome

proof fn lemma_recorded(greps: Seq<crate::store::GrepRecord>, i: int)
    requires
        0 <= i < greps.len(),
        forall|j: int| i < j < greps.len() ==> (#[trigger] greps[j]).pattern@ != greps[i].pattern@,
    ensures
        crate::pattern::recorded(
            greps,
            greps[i].pattern@,
            crate::text::views(greps[i].pathspecs@),
            greps[i].fixed,
        ) == greps[i].outcome@,
    decreases greps.len(),
{
    if i < greps.len() - 1 {
        let p = greps.drop_last();
        assert(greps[greps.len() - 1].pattern@ != greps[i].pattern@);
        assert forall|j: int| i < j < p.len() implies (#[trigger] p[j]).pattern@ != p[i].pattern@ by {
            assert(p[j] == greps[j]);
        }
        lemma_recorded(p, i);
    }
}

/// The answer to a search is what the search that was run for it found, word for word.
pub proof fn law_matches_are_answered(store: Store, scope: Option<&str>, i: int)
    requires
        0 <= i < store.greps@.len(),
        forall|j: int|
            i < j < store.greps@.len() ==> (#[trigger] store.greps@[j]).pattern@
                != store.greps@[i].pattern@,
        plan(store, store.greps@[i].pattern@, scope) == PlanView::Search(
            crate::text::views(store.greps@[i].pathspecs@),
        ),
    ensures
        store.greps@[i].outcome matches crate::store::GrepOutcome::Matches(s)
            ==> crate::pattern::pattern_answer(
            store,
            store.greps@[i].pattern@,
            scope,
            store.greps@[i].fixed,
        ) == s@,
        store.greps@[i].outcome matches crate::store::GrepOutcome::Error(s) ==> crate::lines::holds(
            crate::pattern::pattern_answer(
                store,
                store.greps@[i].pattern@,
                scope,
                store.greps@[i].fixed,
            ),
            "pattern error: "@ + s@,
        ),
{
    lemma_recorded(store.greps@, i);
    if let crate::store::GrepOutcome::Error(s) = store.greps@[i].outcome {
        crate::lines::lemma_holds_itself(
            Seq::empty(),
            "pattern error: "@ + s@,
            ", the pattern is POSIX ERE; use --fixed for a literal search, or escape metacharacters."@,
        );
    }
}

} // verus!
