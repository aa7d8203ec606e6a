//! What a file imports.

use vstd::prelude::*;

use crate::global::{attribute, collect_global, Repo};
use crate::notes::append_head_note;
use crate::sanitize::{is_valid_arg, sanitize_for_mcp};
use crate::store::{opt_view, Edge, EdgeKind, Node, Store};
use crate::text::{cat2, cat3, dec_usize, join_strings, same};

verus! {

/// The most direct dependencies that are listed.
pub const DEFAULT_DEPS_TOP_K: usize = 25;

/// The targets of the edges of one kind, in order.
pub open spec fn targets(edges: Seq<Edge>, kind: EdgeKind) -> Seq<u64>
    decreases edges.len(),
{
    if edges.len() == 0 {
        Seq::empty()
    } else if edges.last().kind == kind {
        targets(edges.drop_last(), kind).push(edges.last().dst)
    } else {
        targets(edges.drop_last(), kind)
    }
}

/// The targets of the edges of one kind.
pub fn targets_of(edges: &Vec<Edge>, kind: EdgeKind) -> (r: Vec<u64>)
    ensures
        r@ == targets(edges@, kind),
{
    let mut r: Vec<u64> = Vec::new();
    let mut i: usize = 0;
    while i < edges.len()
        invariant
            i <= edges@.len(),
            r@ == targets(edges@.take(i as int), kind),
        decreases edges@.len() - i,
    {
        if edges[i].kind == kind {
            r.push(edges[i].dst);
        }
        i += 1;
        assert(edges@.take(i as int).drop_last() =~= edges@.take(i - 1));
    }
    assert(edges@.take(i as int) =~= edges@);
    r
}

/// The files and modules that a node depends on.
pub open spec fn depends_on(store: Store, id: u64) -> Seq<u64> {
    targets(crate::store::leaving(store.edges@, id), EdgeKind::Depends)
}

/// The first file among the nodes.
pub open spec fn first_file(nodes: Seq<Node>) -> Option<Node>
    decreases nodes.len(),
{
    if nodes.len() == 0 {
        None
    } else if first_file(nodes.drop_last()) is Some {
        first_file(nodes.drop_last())
    } else if nodes.last().kind@ == "file"@ {
        Some(nodes.last())
    } else {
        None
    }
}

/// The node that an argument denotes: the first file among the hits, else the first hit.
pub open spec fn file_seed(hits: Option<Seq<Node>>) -> Option<Node> {
    match hits {
        Some(nodes) => if first_file(nodes) is Some {
            first_file(nodes)
        } else if nodes.len() > 0 {
            Some(nodes[0])
        } else {
            None
        },
        None => None,
    }
}

fn find_file(nodes: &Vec<Node>) -> (r: Option<usize>)
    ensures
        r is Some == first_file(nodes@) is Some,
        r matches Some(i) ==> i < nodes@.len() && first_file(nodes@) == Some(nodes@[i as int]),
{
    let mut i: usize = 0;
    let mut r: Option<usize> = None;
    while i < nodes.len()
        invariant
            i <= nodes@.len(),
            r is Some == first_file(nodes@.take(i as int)) is Some,
            r matches Some(k) ==> k < nodes@.len() && first_file(nodes@.take(i as int)) == Some(
                nodes@[k as int],
            ),
        decreases nodes@.len() - i,
    {
        if r.is_none() && same(nodes[i].kind.as_str(), "file") {
            r = Some(i);
        }
        i += 1;
        assert(nodes@.take(i as int).drop_last() =~= nodes@.take(i - 1));
    }
    assert(nodes@.take(i as int) =~= nodes@);
    r
}

fn seed_id(store: &Store, file: &str) -> (r: Option<u64>)
    ensures
        r is Some == file_seed(store.name_hits(file@)) is Some,
        r matches Some(id) ==> id == (file_seed(store.name_hits(file@))->0).id,
{
    match store.search_nodes_by_name(file) {
        Some(nodes) => match find_file(&nodes) {
            Some(i) => Some(nodes[i].id),
            None => if nodes.len() > 0 {
                Some(nodes[0].id)
            } else {
                None
            },
        },
        None => None,
    }
}

/// The signatures of those of the nodes that are in the graph.
pub open spec fn signatures(store: Store, ids: Seq<u64>) -> Seq<Seq<char>>
    decreases ids.len(),
{
    if ids.len() == 0 {
        Seq::empty()
    } else {
        match store.node(ids.last()) {
            Some(n) => signatures(store, ids.drop_last()).push(n.signature@),
            None => signatures(store, ids.drop_last()),
        }
    }
}

/// The note that the list of dependencies is cut short.
pub open spec fn deps_cut_note(total: nat) -> Seq<char> {
    "[showing 25 of "@ + crate::text::dec(total)
        + ", use get_context for ranked coverage or get_dependencies with transitive=true for the full tree]"@
}

/// The direct dependencies, one per line: of the first few, those in the graph; and a note where
/// there are more.
pub open spec fn direct_deps(store: Store, file: Seq<char>) -> Seq<char> {
    match file_seed(store.name_hits(file)) {
        Some(n) => {
            let all = depends_on(store, n.id);
            if all.len() > DEFAULT_DEPS_TOP_K {
                crate::text::join(
                    signatures(store, all.take(DEFAULT_DEPS_TOP_K as int)).push(
                        deps_cut_note(all.len()),
                    ),
                    "\n"@,
                )
            } else {
                crate::text::join(signatures(store, all), "\n"@)
            }
        },
        None => Seq::empty(),
    }
}

/// The direct dependencies of a file.
pub fn get_dependencies_raw(store: &Store, file: &str) -> (r: String)
    ensures
        r@ == direct_deps(*store, file@),
{
    let id: u64 = match seed_id(store, file) {
        Some(id) => id,
        None => return String::new(),
    };
    let edges = store.edges_from(id);
    let all = targets_of(&edges, EdgeKind::Depends);
    let total: usize = all.len();
    let shown: usize = if total < DEFAULT_DEPS_TOP_K {
        total
    } else {
        DEFAULT_DEPS_TOP_K
    };
    let mut lines: Vec<String> = Vec::new();
    let mut i: usize = 0;
    assert(crate::text::views(lines@) =~= Seq::empty());
    while i < shown
        invariant
            i <= shown <= all@.len(),
            crate::text::views(lines@) == signatures(*store, all@.take(i as int)),
        decreases shown - i,
    {
        assert(all@.take(i + 1).drop_last() =~= all@.take(i as int));
        if let Some(n) = store.get_node(all[i]) {
            proof {
                crate::text::lemma_views_push(lines@, n.signature);
            }
            lines.push(n.signature.clone());
        }
        i += 1;
    }
    if total > DEFAULT_DEPS_TOP_K {
        let count = dec_usize(total);
        let note = cat3(
            "[showing 25 of ",
            count.as_str(),
            ", use get_context for ranked coverage or get_dependencies with transitive=true for the full tree]",
        );
        proof {
            crate::text::lemma_views_push(lines@, note);
        }
        lines.push(note);
    } else {
        assert(all@.take(i as int) =~= all@);
    }
    join_strings(&lines, "\n")
}

// ---------------------------------------------------------------- transitive

/// The ids that are not yet seen, each once, in order of first occurrence.
pub open spec fn fresh(ids: Seq<u64>, seen: Set<u64>) -> Seq<u64>
    decreases ids.len(),
{
    if ids.len() == 0 {
        Seq::empty()
    } else {
        let r = fresh(ids.drop_last(), seen);
        if seen.contains(ids.last()) || r.contains(ids.last()) {
            r
        } else {
            r.push(ids.last())
        }
    }
}

/// The dependencies of a front of nodes, node by node.
pub open spec fn wave(store: Store, front: Seq<u64>) -> Seq<u64>
    decreases front.len(),
{
    if front.len() == 0 {
        Seq::empty()
    } else {
        wave(store, front.drop_last()) + depends_on(store, front.last())
    }
}

/// Those of the ids that are in the graph.
pub open spec fn known(store: Store, ids: Seq<u64>) -> Seq<u64>
    decreases ids.len(),
{
    if ids.len() == 0 {
        Seq::empty()
    } else if store.node(ids.last()) is Some {
        known(store, ids.drop_last()).push(ids.last())
    } else {
        known(store, ids.drop_last())
    }
}

/// `s` repeated `n` times.
pub open spec fn repeated(s: Seq<char>, n: nat) -> Seq<char>
    decreases n,
{
    if n == 0 {
        Seq::empty()
    } else {
        repeated(s, (n - 1) as nat) + s
    }
}

/// Every text behind the same prefix.
pub open spec fn prefixed(p: Seq<char>, v: Seq<Seq<char>>) -> Seq<Seq<char>> {
    Seq::new(v.len(), |i: int| p + v[i])
}

/// The dependencies level by level: the front's own dependencies first, indented by their
/// distance, then those behind them, up to `depth` levels; no node is listed twice.
pub open spec fn levels(
    store: Store,
    front: Seq<u64>,
    seen: Set<u64>,
    hop: nat,
    depth: nat,
) -> Seq<Seq<char>>
    decreases depth - hop,
{
    if hop >= depth || front.len() == 0 {
        Seq::empty()
    } else {
        let next = fresh(wave(store, front), seen);
        prefixed(repeated("  ↳ "@, hop), signatures(store, next)) + levels(
            store,
            known(store, next),
            seen.union(next.to_set()),
            hop + 1,
            depth,
        )
    }
}

/// The dependencies up to `depth` hops away, one per line.
pub open spec fn transitive_deps(store: Store, file: Seq<char>, depth: nat) -> Seq<char> {
    match file_seed(store.name_hits(file)) {
        Some(n) => crate::text::join(
            levels(store, seq![n.id], set![n.id], 0, depth),
            "\n"@,
        ),
        None => Seq::empty(),
    }
}

fn id_in(v: &Vec<u64>, id: u64) -> (r: bool)
    ensures
        r == v@.contains(id),
{
    let mut i: usize = 0;
    while i < v.len()
        invariant
            i <= v@.len(),
            forall|j: int| 0 <= j < i ==> v@[j] != id,
        decreases v@.len() - i,
    {
        if v[i] == id {
            return true;
        }
        i += 1;
    }
    false
}

fn wave_of(store: &Store, front: &Vec<u64>) -> (r: Vec<u64>)
    ensures
        r@ == wave(*store, front@),
{
    let mut r: Vec<u64> = Vec::new();
    let mut i: usize = 0;
    while i < front.len()
        invariant
            i <= front@.len(),
            r@ == wave(*store, front@.take(i as int)),
        decreases front@.len() - i,
    {
        assert(front@.take(i + 1).drop_last() =~= front@.take(i as int));
        let edges = store.edges_from(front[i]);
        let mut more = targets_of(&edges, EdgeKind::Depends);
        r.append(&mut more);
        i += 1;
    }
    assert(front@.take(i as int) =~= front@);
    r
}

fn fresh_of(ids: &Vec<u64>, seen: &Vec<u64>) -> (r: Vec<u64>)
    ensures
        r@ == fresh(ids@, seen@.to_set()),
{
    let mut r: Vec<u64> = Vec::new();
    let mut i: usize = 0;
    while i < ids.len()
        invariant
            i <= ids@.len(),
            r@ == fresh(ids@.take(i as int), seen@.to_set()),
        decreases ids@.len() - i,
    {
        assert(ids@.take(i + 1).drop_last() =~= ids@.take(i as int));
        let old_seen = id_in(seen, ids[i]);
        assert(seen@.to_set().contains(ids@[i as int]) == seen@.contains(ids@[i as int]));
        if !old_seen && !id_in(&r, ids[i]) {
            r.push(ids[i]);
        }
        i += 1;
    }
    assert(ids@.take(i as int) =~= ids@);
    r
}

/// The dependencies of a file up to `depth` hops away, nearest first; each level below the first
/// is indented by one arrow more.
pub fn get_dependencies_transitive_raw(store: &Store, file: &str, depth: u32) -> (r: String)
    ensures
        r@ == transitive_deps(*store, file@, depth as nat),
{
    let id: u64 = match seed_id(store, file) {
        Some(id) => id,
        None => return String::new(),
    };
    let mut front: Vec<u64> = Vec::new();
    front.push(id);
    let mut seen: Vec<u64> = Vec::new();
    seen.push(id);
    let mut lines: Vec<String> = Vec::new();
    let mut prefix = String::new();
    let mut hop: u32 = 0;
    let ghost goal = levels(*store, seq![id], set![id], 0, depth as nat);
    proof {
        assert(front@ =~= seq![id]);
        assert(seen@.to_set() =~= set![id]) by {
            assert(seen@ =~= seq![id]);
            assert forall|x: u64| seen@.contains(x) <==> x == id by {
                assert(seen@[0] == id);
            }
        }
        assert(crate::text::views(lines@) =~= Seq::<Seq<char>>::empty());
        assert(prefix@ =~= Seq::<char>::empty());
        assert(crate::text::views(lines@) + goal =~= goal);
    }
    while hop < depth && front.len() > 0
        invariant
            hop <= depth,
            prefix@ == repeated("  ↳ "@, hop as nat),
            goal == crate::text::views(lines@) + levels(
                *store,
                front@,
                seen@.to_set(),
                hop as nat,
                depth as nat,
            ),
        decreases depth - hop,
    {
        let wide = wave_of(store, &front);
        let next = fresh_of(&wide, &seen);
        let ghost start = crate::text::views(lines@);
        let ghost sigs = signatures(*store, next@);
        let mut kept: Vec<u64> = Vec::new();
        let mut i: usize = 0;
        assert(start + prefixed(prefix@, signatures(*store, next@.take(0))) =~= start);
        while i < next.len()
            invariant
                i <= next@.len(),
                kept@ == known(*store, next@.take(i as int)),
                crate::text::views(lines@) == start + prefixed(
                    prefix@,
                    signatures(*store, next@.take(i as int)),
                ),
            decreases next@.len() - i,
        {
            assert(next@.take(i + 1).drop_last() =~= next@.take(i as int));
            if let Some(n) = store.get_node(next[i]) {
                let line = cat2(prefix.as_str(), n.signature.as_str());
                proof {
                    crate::text::lemma_views_push(lines@, line);
                    let a = signatures(*store, next@.take(i as int));
                    assert(prefixed(prefix@, a.push(n.signature@)) =~= prefixed(prefix@, a).push(
                        line@,
                    ));
                    assert(start + prefixed(prefix@, a).push(line@) =~= (start + prefixed(
                        prefix@,
                        a,
                    )).push(line@));
                }
                lines.push(line);
                kept.push(next[i]);
            }
            i += 1;
        }
        assert(next@.take(i as int) =~= next@);
        let ghost was = seen@;
        let mut j: usize = 0;
        while j < next.len()
            invariant
                j <= next@.len(),
                seen@ == was + next@.take(j as int),
            decreases next@.len() - j,
        {
            seen.push(next[j]);
            j += 1;
            assert(seen@ =~= was + next@.take(j as int));
        }
        proof {
            assert(next@.take(j as int) =~= next@);
            assert((was + next@).to_set() =~= was.to_set().union(next@.to_set())) by {
                assert forall|x: u64| (was + next@).contains(x) <==> was.contains(x)
                    || next@.contains(x) by {
                    if was.contains(x) {
                        let k = choose|k: int| 0 <= k < was.len() && was[k] == x;
                        assert((was + next@)[k] == x);
                    }
                    if next@.contains(x) {
                        let k = choose|k: int| 0 <= k < next@.len() && next@[k] == x;
                        assert((was + next@)[was.len() + k] == x);
                    }
                    if (was + next@).contains(x) {
                        let k = choose|k: int| 0 <= k < (was + next@).len() && (was + next@)[k] == x;
                        if k < was.len() {
                            assert(was[k] == x);
                        } else {
                            assert(next@[k - was.len()] == x);
                        }
                    }
                }
            }
            assert(goal =~= crate::text::views(lines@) + levels(
                *store,
                kept@,
                seen@.to_set(),
                (hop + 1) as nat,
                depth as nat,
            ));
        }
        front = kept;
        prefix.append("  ↳ ");
        hop += 1;
    }
    assert(crate::text::views(lines@) =~= goal);
    join_strings(&lines, "\n")
}

// ---------------------------------------------------------------- the tool

/// Why an argument has no dependencies: it matched no file. No hint where a file matched, or where
/// the search failed.
pub open spec fn arg_hint(store: Store, file: Seq<char>) -> Option<Seq<char>> {
    match store.name_hits(file) {
        Some(nodes) => if first_file(nodes) is Some {
            None
        } else if nodes.len() > 0 {
            Some(
                "'"@ + file + "' resolved to "@ + nodes[0].kind@ + " '"@ + nodes[0].signature@
                    + "', not a file, get_dependencies takes a repo-relative file path. For a symbol, use get_callers or find_references."@,
            )
        } else {
            Some(
                "no file matched '"@ + file
                    + "', get_dependencies takes a repo-relative file path (run get_repo_map to list files)."@,
            )
        },
        None => None,
    }
}

/// The hint for an argument that is not a file.
pub fn dependency_arg_hint(store: &Store, file: &str) -> (r: Option<String>)
    ensures
        r is Some == arg_hint(*store, file@) is Some,
        r matches Some(s) ==> arg_hint(*store, file@) == Some(s@),
{
    match store.search_nodes_by_name(file) {
        Some(nodes) => {
            if find_file(&nodes).is_some() {
                return None;
            }
            if nodes.len() > 0 {
                let mut s = cat3("'", file, "' resolved to ");
                s.append(nodes[0].kind.as_str());
                s.append(" '");
                s.append(nodes[0].signature.as_str());
                s.append(
                    "', not a file, get_dependencies takes a repo-relative file path. For a symbol, use get_callers or find_references.",
                );
                Some(s)
            } else {
                Some(
                    cat3(
                        "no file matched '",
                        file,
                        "', get_dependencies takes a repo-relative file path (run get_repo_map to list files).",
                    ),
                )
            }
        },
        None => None,
    }
}

/// The answer to a request for the dependencies of a file.
pub open spec fn dependencies(
    store: Store,
    file: Seq<char>,
    transitive: bool,
    depth: nat,
    head: Option<Seq<char>>,
) -> Seq<char> {
    let raw = if transitive {
        transitive_deps(store, file, depth)
    } else {
        direct_deps(store, file)
    };
    if !crate::sanitize::arg_ok(file) {
        Seq::empty()
    } else if raw.len() == 0 && arg_hint(store, file) is Some {
        crate::sanitize::scalar(arg_hint(store, file)->0)
    } else {
        crate::notes::head_notes(store, crate::sanitize::scalar(raw), head)
    }
}

/// The import targets of a file, directly or up to `depth` hops away. `head` is the commit of the
/// caller's checkout, where it is known.
pub fn get_dependencies(
    store: &Store,
    file: &str,
    transitive: bool,
    depth: u32,
    head: Option<&str>,
) -> (r: String)
    ensures
        r@ == dependencies(*store, file@, transitive, depth as nat, opt_view(head)),
{
    if !is_valid_arg(file) {
        return String::new();
    }
    let raw = if transitive {
        get_dependencies_transitive_raw(store, file, depth)
    } else {
        get_dependencies_raw(store, file)
    };
    if raw.as_str().is_empty() {
        if let Some(hint) = dependency_arg_hint(store, file) {
            return sanitize_for_mcp(hint.as_str());
        }
    }
    append_head_note(store, sanitize_for_mcp(raw.as_str()), head)
}

/// The part of one repository in an answer over several.
pub open spec fn deps_part(repo: Repo, store: Store, single: bool, file: Seq<char>) -> Seq<char> {
    let raw = direct_deps(store, file);
    if raw.len() == 0 && single {
        match arg_hint(store, file) {
            Some(h) => h,
            None => raw,
        }
    } else {
        crate::notes::head_notes(
            store,
            crate::global::attributed(repo.name@, raw, single),
            repo.head_view(),
        )
    }
}

/// What each repository gives.
pub open spec fn deps_parts(file: Seq<char>) -> spec_fn(Repo, Store, bool) -> Seq<char> {
    |r: Repo, s: Store, single: bool| deps_part(r, s, single, file)
}

/// The answer over the registered repositories.
pub open spec fn dependencies_global(
    repos: Seq<Repo>,
    file: Seq<char>,
    repo: Option<Seq<char>>,
) -> Seq<char> {
    if crate::sanitize::arg_ok(file) {
        crate::sanitize::scalar(
            crate::global::gathered(
                repos,
                repo,
                deps_parts(file),
            ),
        )
    } else {
        Seq::empty()
    }
}

/// The import targets of a file in one named repository, or in all.
pub fn get_dependencies_global(repos: &Vec<Repo>, file: &str, repo: Option<&str>) -> (r: String)
    ensures
        r@ == dependencies_global(repos@, file@, opt_view(repo)),
{
    if !is_valid_arg(file) {
        return String::new();
    }
    let f = |x: &Repo, s: &Store, single: bool| -> (o: String)
        ensures
            o@ == deps_part(*x, *s, single, file@),
        {
            let raw = get_dependencies_raw(s, file);
            if raw.as_str().is_empty() && single {
                match dependency_arg_hint(s, file) {
                    Some(h) => h,
                    None => raw,
                }
            } else {
                append_head_note(s, attribute(x.name.as_str(), raw, single), x.head_ref())
            }
        };
    let raw = collect_global(
        repos,
        repo,
        f,
        Ghost(deps_parts(file@)),
    );
    sanitize_for_mcp(raw.as_str())
}

// ---------------------------------------------------------------- laws

proof fn lemma_fresh(ids: Seq<u64>, seen: Set<u64>)
    ensures
        fresh(ids, seen).no_duplicates(),
        forall|i: int| 0 <= i < fresh(ids, seen).len() ==> !seen.contains(#[trigger] fresh(ids, seen)[i]),
    decreases ids.len(),
{
    if ids.len() > 0 {
        lemma_fresh(ids.drop_last(), seen);
    }
}

/// A level never repeats a node and never lists one that an earlier level holds.
pub proof fn law_no_dependency_is_listed_twice(store: Store, front: Seq<u64>, seen: Set<u64>)
    ensures
        fresh(wave(store, front), seen).no_duplicates(),
        fresh(wave(store, front), seen).to_set().disjoint(seen),
{
    lemma_fresh(wave(store, front), seen);
    let f = fresh(wave(store, front), seen);
    assert forall|x: u64| !(f.to_set().contains(x) && seen.contains(x)) by {
        if f.to_set().contains(x) {
            let i = choose|i: int| 0 <= i < f.len() && f[i] == x;
            assert(!seen.contains(f[i]));
        }
    }
}

/// A file without dependencies gets an empty answer, not a hint.
pub proof fn law_known_file_gets_no_hint(store: Store, file: Seq<char>)
    requires
        store.name_hits(file) matches Some(nodes) && first_file(nodes) is Some,
    ensures
        arg_hint(store, file) is None,
{
}

} // verus!
