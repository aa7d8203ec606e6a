//! How a change to a file spreads through a graph.

use vstd::prelude::*;

use std::collections::HashSet;

use crate::blast::{importers_of, AnalysisMode};
use crate::order::{insert_member, is_member};
use crate::store::{Edge, EdgeKind, Node, Store};

verus! {

broadcast use vstd::std_specs::hash::group_hash_axioms;

/// The most nodes, and the most files, that are followed.
pub const MAX_BLAST_RADIUS_NODES: usize = 50_000;

// ---------------------------------------------------------------- what spreads

/// Which edges carry a change from their target to their source.
#[derive(Debug, Clone, Copy, PartialEq, Eq, Structural)]
pub enum Rule {
    Mode(AnalysisMode),
    /// The edges that lead from an import statement to its file.
    Import,
}

pub open spec fn carries(rule: Rule, kind: EdgeKind) -> bool {
    match rule {
        Rule::Mode(AnalysisMode::TreeSitter) => kind == EdgeKind::DefinesBinding || kind
            == EdgeKind::RefCall || kind == EdgeKind::Depends || kind == EdgeKind::ResolvesTo,
        Rule::Mode(AnalysisMode::Semantic) => kind == EdgeKind::RefCall,
        Rule::Import => kind == EdgeKind::Depends,
    }
}

fn does_carry(rule: Rule, kind: EdgeKind) -> (r: bool)
    ensures
        r == carries(rule, kind),
{
    match rule {
        Rule::Mode(AnalysisMode::TreeSitter) => kind == EdgeKind::DefinesBinding || kind
            == EdgeKind::RefCall || kind == EdgeKind::Depends || kind == EdgeKind::ResolvesTo,
        Rule::Mode(AnalysisMode::Semantic) => kind == EdgeKind::RefCall,
        Rule::Import => kind == EdgeKind::Depends,
    }
}

/// The file of a node, where it has one.
pub open spec fn file_of(store: Store, id: u64) -> Set<Seq<char>> {
    match store.node(id) {
        Some(n) => if n.path@.len() > 0 {
            set![n.path@]
        } else {
            Set::empty()
        },
        None => Set::empty(),
    }
}

/// The node is affected, and its file.
pub open spec fn taken(store: Store, id: u64, v: Set<u64>, f: Set<Seq<char>>) -> bool {
    v.contains(id) && file_of(store, id).subset_of(f)
}

/// The sources of all edges that carry a change are affected.
pub open spec fn all_taken(
    store: Store,
    edges: Seq<Edge>,
    rule: Rule,
    v: Set<u64>,
    f: Set<Seq<char>>,
) -> bool {
    forall|i: int|
        0 <= i < edges.len() && carries(rule, (#[trigger] edges[i]).kind) ==> taken(
            store,
            edges[i].src,
            v,
            f,
        )
}

/// A node has passed a change on.
pub open spec fn node_passed(
    store: Store,
    mode: AnalysisMode,
    id: u64,
    v: Set<u64>,
    f: Set<Seq<char>>,
) -> bool {
    all_taken(store, store.arriving(id), Rule::Mode(mode), v, f)
}

/// A file has passed a change on to the files that import it.
pub open spec fn file_passed(store: Store, file: Seq<char>, v: Set<u64>, f: Set<Seq<char>>) -> bool {
    forall|k: int|
        0 <= k < store.imports@.len() && crate::blast::bridges(#[trigger] store.imports@[k], file)
            ==> all_taken(
            store,
            store.arriving(store.imports@[k].id),
            Rule::Import,
            v,
            f,
        )
}

/// The seeds are affected, and their files.
pub open spec fn seeded(hits: Seq<Node>, v: Set<u64>, f: Set<Seq<char>>) -> bool {
    forall|i: int|
        0 <= i < hits.len() ==> v.contains((#[trigger] hits[i]).id) && (hits[i].path@.len() > 0
            ==> f.contains(hits[i].path@))
}

/// The nodes and files hold the seeds, and everything that a member passes a change on to.
pub open spec fn spread(
    store: Store,
    mode: AnalysisMode,
    hits: Seq<Node>,
    v: Set<u64>,
    f: Set<Seq<char>>,
) -> bool {
    &&& seeded(hits, v, f)
    &&& forall|id: u64| #[trigger] v.contains(id) ==> node_passed(store, mode, id, v, f)
    &&& mode == AnalysisMode::TreeSitter ==> forall|p: Seq<char>| #[trigger]
        f.contains(p) ==> file_passed(store, p, v, f)
}

/// The affected nodes: the least that hold the seeds and all that they pass a change on to.
pub open spec fn affected_nodes(store: Store, mode: AnalysisMode, hits: Seq<Node>) -> Set<u64> {
    Set::new(
        |id: u64|
            forall|v: Set<u64>, f: Set<Seq<char>>| #[trigger]
                spread(store, mode, hits, v, f) ==> v.contains(id),
    )
}

/// The affected files.
pub open spec fn affected_files(store: Store, mode: AnalysisMode, hits: Seq<Node>) -> Set<
    Seq<char>,
> {
    Set::new(
        |p: Seq<char>|
            forall|v: Set<u64>, f: Set<Seq<char>>| #[trigger]
                spread(store, mode, hits, v, f) ==> f.contains(p),
    )
}

/// The files of the seeds.
pub open spec fn seed_files(hits: Seq<Node>) -> Set<Seq<char>> {
    Set::new(
        |p: Seq<char>|
            p.len() > 0 && exists|i: int| 0 <= i < hits.len() && (#[trigger] hits[i]).path@ == p,
    )
}

// ---------------------------------------------------------------- the walk

/// A walk in progress.
pub struct Front {
    /// The affected nodes in the order in which they were found.
    pub queue: Seq<u64>,
    pub files: Set<Seq<char>>,
    /// How many of the nodes have passed the change on.
    pub next: nat,
    /// The files that pass the change on before any other node does, in order.
    pub todo: Seq<Seq<char>>,
    /// The files that have passed the change on.
    pub done: Set<Seq<char>>,
    /// The walk has ended.
    pub over: bool,
}

/// The walk with a node and its file. It ends where the files reach the most that are followed.
pub open spec fn touched(store: Store, w: Front, id: u64) -> Front {
    let files = w.files.union(file_of(store, id));
    Front {
        queue: if w.queue.contains(id) {
            w.queue
        } else {
            w.queue.push(id)
        },
        files,
        over: files.len() >= MAX_BLAST_RADIUS_NODES,
        ..w
    }
}

/// The walk with the sources of the edges that carry a change, in order, as far as it goes.
pub open spec fn followed(store: Store, w: Front, edges: Seq<Edge>, rule: Rule) -> Front
    decreases edges.len(),
{
    if edges.len() == 0 {
        w
    } else {
        let g = followed(store, w, edges.drop_last(), rule);
        if !g.over && carries(rule, edges.last().kind) {
            touched(store, g, edges.last().src)
        } else {
            g
        }
    }
}

/// The walk with the files of the imports, in order, as far as it goes.
pub open spec fn imported(store: Store, w: Front, ids: Seq<u64>) -> Front
    decreases ids.len(),
{
    if ids.len() == 0 {
        w
    } else {
        let g = imported(store, w, ids.drop_last());
        if g.over {
            g
        } else {
            followed(store, g, store.arriving(ids.last()), Rule::Import)
        }
    }
}

/// The walk with the seeds and their files.
pub open spec fn start(hits: Seq<Node>) -> Front
    decreases hits.len(),
{
    if hits.len() == 0 {
        Front {
            queue: Seq::empty(),
            files: Set::empty(),
            next: 0,
            todo: Seq::empty(),
            done: Set::empty(),
            over: false,
        }
    } else {
        let w = start(hits.drop_last());
        let n = hits.last();
        Front {
            queue: if w.queue.contains(n.id) {
                w.queue
            } else {
                w.queue.push(n.id)
            },
            files: if n.path@.len() > 0 {
                w.files.insert(n.path@)
            } else {
                w.files
            },
            ..w
        }
    }
}

/// The nodes or the files reach the most that are followed.
pub open spec fn is_full(w: Front) -> bool {
    w.queue.len() >= MAX_BLAST_RADIUS_NODES || w.files.len() >= MAX_BLAST_RADIUS_NODES
}

/// The walk after one more step. The nodes pass the change on in the order in which they were found;
/// when all have, the files that have not yet pass it on to their importers, in order; and so on, until
/// nothing is left or the most that are followed are reached.
pub open spec fn step(store: Store, mode: AnalysisMode, w: Front) -> Front {
    if w.over {
        w
    } else if w.todo.len() > 0 {
        Front {
            todo: w.todo.skip(1),
            done: w.done.insert(w.todo[0]),
            ..imported(store, w, crate::blast::importers(store, w.todo[0]))
        }
    } else if is_full(w) {
        Front { over: true, ..w }
    } else if w.next < w.queue.len() {
        Front {
            next: w.next + 1,
            ..followed(store, w, store.arriving(w.queue[w.next as int]), Rule::Mode(mode))
        }
    } else {
        let rest = crate::order::sorted_of(w.files.difference(w.done));
        if mode != AnalysisMode::TreeSitter || rest.len() == 0 {
            Front { over: true, ..w }
        } else {
            Front { todo: rest, ..w }
        }
    }
}

/// The walk after `k` steps.
pub open spec fn after(store: Store, mode: AnalysisMode, hits: Seq<Node>, k: nat) -> Front
    decreases k,
{
    if k == 0 {
        start(hits)
    } else {
        step(store, mode, after(store, mode, hits, (k - 1) as nat))
    }
}

/// The walk has ended after `k` steps.
pub open spec fn is_over(store: Store, mode: AnalysisMode, hits: Seq<Node>, k: nat) -> bool {
    after(store, mode, hits, k).over
}

/// The files that the walk from the seeds has found when it ends.
pub open spec fn radius(store: Store, mode: AnalysisMode, hits: Seq<Node>) -> Set<Seq<char>> {
    after(store, mode, hits, choose|k: nat| is_over(store, mode, hits, k)).files
}

proof fn lemma_stays_over(store: Store, mode: AnalysisMode, hits: Seq<Node>, k: nat, m: nat)
    requires
        is_over(store, mode, hits, k),
        k <= m,
    ensures
        after(store, mode, hits, m) == after(store, mode, hits, k),
    decreases m,
{
    if k < m {
        lemma_stays_over(store, mode, hits, k, (m - 1) as nat);
    }
}

proof fn lemma_radius(store: Store, mode: AnalysisMode, hits: Seq<Node>, k: nat)
    requires
        is_over(store, mode, hits, k),
    ensures
        radius(store, mode, hits) == after(store, mode, hits, k).files,
{
    let m = choose|m: nat| is_over(store, mode, hits, m);
    assert(is_over(store, mode, hits, m));
    if k <= m {
        lemma_stays_over(store, mode, hits, k, m);
    } else {
        lemma_stays_over(store, mode, hits, m, k);
    }
}

// ---------------------------------------------------------------- what a walk keeps

/// All ids that a walk can reach.
spec fn universe(store: Store, hits: Seq<Node>) -> Seq<u64> {
    Seq::new(hits.len(), |i: int| hits[i].id) + Seq::new(
        store.edges@.len(),
        |i: int| store.edges@[i].src,
    )
}

/// All files that a walk can reach.
spec fn places(store: Store, hits: Seq<Node>) -> Seq<Seq<char>> {
    Seq::new(hits.len(), |i: int| hits[i].path@) + Seq::new(
        store.nodes@.len(),
        |i: int| store.nodes@[i].path@,
    )
}

/// Nothing was found twice, and only what can be reached.
spec fn ok(store: Store, hits: Seq<Node>, w: Front) -> bool {
    &&& w.queue.no_duplicates()
    &&& forall|k: int| 0 <= k < w.queue.len() ==> universe(store, hits).contains(#[trigger] w.queue[k])
    &&& w.files.finite()
    &&& forall|p: Seq<char>| #[trigger] w.files.contains(p) ==> places(store, hits).contains(p)
}

spec fn within(w: Front, v: Set<u64>, f: Set<Seq<char>>) -> bool {
    w.queue.to_set().subset_of(v) && w.files.subset_of(f)
}

/// `g` goes on from `w`.
spec fn grows(w: Front, g: Front) -> bool {
    &&& w.queue.is_prefix_of(g.queue)
    &&& w.files.subset_of(g.files)
    &&& g.next == w.next
    &&& g.todo == w.todo
    &&& g.done == w.done
}

proof fn lemma_grows(w: Front, g: Front)
    requires
        grows(w, g),
    ensures
        w.queue.to_set().subset_of(g.queue.to_set()),
        w.queue.len() <= g.queue.len(),
        forall|k: int| 0 <= k < w.queue.len() ==> w.queue[k] == g.queue[k],
{
    assert forall|k: int| 0 <= k < w.queue.len() implies w.queue[k] == g.queue[k] by {
        assert(g.queue.subrange(0, w.queue.len() as int)[k] == w.queue[k]);
    }
    assert forall|id: u64| w.queue.to_set().contains(id) implies g.queue.to_set().contains(id) by {
        let k = choose|k: int| 0 <= k < w.queue.len() && w.queue[k] == id;
        assert(g.queue[k] == id);
    }
}

proof fn lemma_grows_on(a: Front, b: Front, c: Front)
    requires
        grows(a, b),
        grows(b, c),
    ensures
        grows(a, c),
{
    lemma_grows(a, b);
    lemma_grows(b, c);
    assert(c.queue.subrange(0, a.queue.len() as int) =~= a.queue);
}

proof fn lemma_touched(store: Store, hits: Seq<Node>, w: Front, id: u64)
    requires
        ok(store, hits, w),
        universe(store, hits).contains(id),
    ensures
        ok(store, hits, touched(store, w, id)),
        grows(w, touched(store, w, id)),
        touched(store, w, id).queue.to_set() == w.queue.to_set().insert(id),
        taken(
            store,
            id,
            touched(store, w, id).queue.to_set(),
            touched(store, w, id).files,
        ),
        touched(store, w, id).files.len() <= w.files.len() + 1,
{
    let g = touched(store, w, id);
    if w.queue.contains(id) {
        assert(w.queue.to_set().contains(id));
        assert(w.queue.to_set().insert(id) =~= w.queue.to_set());
        assert(g.queue.subrange(0, w.queue.len() as int) =~= w.queue);
    } else {
        crate::order::lemma_to_set_push(w.queue, id);
        assert(g.queue.subrange(0, w.queue.len() as int) =~= w.queue);
        assert forall|x: int, y: int|
            0 <= x < g.queue.len() && 0 <= y < g.queue.len() && x != y implies g.queue[x]
            != g.queue[y] by {
            if x < w.queue.len() {
                assert(w.queue.contains(w.queue[x]));
            }
            if y < w.queue.len() {
                assert(w.queue.contains(w.queue[y]));
            }
        }
        assert forall|k: int| 0 <= k < g.queue.len() implies universe(store, hits).contains(
            #[trigger] g.queue[k],
        ) by {
            if k < w.queue.len() {
                assert(g.queue[k] == w.queue[k]);
                assert(universe(store, hits).contains(w.queue[k]));
            }
        }
    }
    match store.node(id) {
        Some(n) => {
            crate::store::lemma_find_node(store.nodes@, id);
            assert(store.nodes@.contains(n));
            let k = choose|k: int| 0 <= k < store.nodes@.len() && store.nodes@[k] == n;
            assert(places(store, hits)[hits.len() + k] == n.path@);
            if n.path@.len() > 0 {
                assert(g.files =~= w.files.insert(n.path@));
            } else {
                assert(g.files =~= w.files);
            }
        },
        None => {
            assert(g.files =~= w.files);
        },
    }
}

proof fn lemma_arriving(store: Store, id: u64)
    ensures
        forall|i: int|
            0 <= i < store.arriving(id).len() ==> store.edges@.contains(
                #[trigger] store.arriving(id)[i],
            ),
{
    crate::store::lemma_entering(store.edges@, id);
    let a = store.arriving(id);
    assert forall|i: int| 0 <= i < a.len() implies store.edges@.contains(#[trigger] a[i]) by {
        assert(crate::store::entering(store.edges@, id).contains(a[i]));
    }
}

/// What stays true as sets grow.
proof fn lemma_all_taken(
    store: Store,
    edges: Seq<Edge>,
    rule: Rule,
    v: Set<u64>,
    f: Set<Seq<char>>,
    v2: Set<u64>,
    f2: Set<Seq<char>>,
)
    requires
        all_taken(store, edges, rule, v, f),
        v.subset_of(v2),
        f.subset_of(f2),
    ensures
        all_taken(store, edges, rule, v2, f2),
{
}

/// What following edges does to a walk that has not ended.
proof fn lemma_followed(store: Store, hits: Seq<Node>, w: Front, edges: Seq<Edge>, rule: Rule)
    requires
        ok(store, hits, w),
        !w.over,
        w.files.len() < MAX_BLAST_RADIUS_NODES,
        forall|i: int| 0 <= i < edges.len() ==> store.edges@.contains(#[trigger] edges[i]),
    ensures
        ok(store, hits, followed(store, w, edges, rule)),
        grows(w, followed(store, w, edges, rule)),
        followed(store, w, edges, rule).files.len() <= MAX_BLAST_RADIUS_NODES,
        followed(store, w, edges, rule).over == (followed(store, w, edges, rule).files.len()
            >= MAX_BLAST_RADIUS_NODES),
        !followed(store, w, edges, rule).over ==> all_taken(
            store,
            edges,
            rule,
            followed(store, w, edges, rule).queue.to_set(),
            followed(store, w, edges, rule).files,
        ),
        forall|v: Set<u64>, f: Set<Seq<char>>|
            within(w, v, f) && #[trigger] all_taken(store, edges, rule, v, f) ==> within(
                followed(store, w, edges, rule),
                v,
                f,
            ),
    decreases edges.len(),
{
    let g = followed(store, w, edges, rule);
    if edges.len() == 0 {
        assert(w.queue.subrange(0, w.queue.len() as int) =~= w.queue);
    } else {
        let rest = edges.drop_last();
        let e = edges.last();
        assert forall|i: int| 0 <= i < rest.len() implies store.edges@.contains(
            #[trigger] rest[i],
        ) by {
            assert(rest[i] == edges[i]);
        }
        lemma_followed(store, hits, w, rest, rule);
        let p = followed(store, w, rest, rule);
        assert forall|v: Set<u64>, f: Set<Seq<char>>| all_taken(
            store,
            edges,
            rule,
            v,
            f,
        ) implies #[trigger] all_taken(store, rest, rule, v, f) by {
            assert forall|i: int|
                0 <= i < rest.len() && carries(rule, (#[trigger] rest[i]).kind) implies taken(
                store,
                rest[i].src,
                v,
                f,
            ) by {
                assert(rest[i] == edges[i]);
            }
        }
        if !p.over && carries(rule, e.kind) {
            assert(store.edges@.contains(edges[edges.len() - 1]));
            let k = choose|k: int| 0 <= k < store.edges@.len() && store.edges@[k] == e;
            assert(universe(store, hits)[hits.len() + k] == e.src);
            lemma_touched(store, hits, p, e.src);
            lemma_grows_on(w, p, g);
            lemma_grows(p, g);
            lemma_all_taken(store, rest, rule, p.queue.to_set(), p.files, g.queue.to_set(), g.files);
            assert forall|i: int|
                0 <= i < edges.len() && carries(rule, (#[trigger] edges[i]).kind) implies taken(
                store,
                edges[i].src,
                g.queue.to_set(),
                g.files,
            ) by {
                if i < rest.len() {
                    assert(rest[i] == edges[i]);
                }
            }
            assert forall|v: Set<u64>, f: Set<Seq<char>>|
                within(w, v, f) && #[trigger] all_taken(store, edges, rule, v, f) implies within(
                g,
                v,
                f,
            ) by {
                assert(all_taken(store, rest, rule, v, f));
                assert(within(p, v, f));
                assert(taken(store, edges[edges.len() - 1].src, v, f));
            }
        } else {
            if !p.over {
                assert forall|i: int|
                    0 <= i < edges.len() && carries(rule, (#[trigger] edges[i]).kind) implies taken(
                    store,
                    edges[i].src,
                    g.queue.to_set(),
                    g.files,
                ) by {
                    assert(rest[i] == edges[i]);
                }
            }
            assert forall|v: Set<u64>, f: Set<Seq<char>>|
                within(w, v, f) && #[trigger] all_taken(store, edges, rule, v, f) implies within(
                g,
                v,
                f,
            ) by {
                assert(all_taken(store, rest, rule, v, f));
            }
        }
    }
}

/// The imports have passed a change on.
spec fn imports_passed(store: Store, ids: Seq<u64>, v: Set<u64>, f: Set<Seq<char>>) -> bool {
    forall|i: int|
        0 <= i < ids.len() ==> all_taken(
            store,
            store.arriving(#[trigger] ids[i]),
            Rule::Import,
            v,
            f,
        )
}

proof fn lemma_imported(store: Store, hits: Seq<Node>, w: Front, ids: Seq<u64>)
    requires
        ok(store, hits, w),
        !w.over,
        w.files.len() < MAX_BLAST_RADIUS_NODES,
    ensures
        ok(store, hits, imported(store, w, ids)),
        grows(w, imported(store, w, ids)),
        imported(store, w, ids).files.len() <= MAX_BLAST_RADIUS_NODES,
        imported(store, w, ids).over == (imported(store, w, ids).files.len()
            >= MAX_BLAST_RADIUS_NODES),
        !imported(store, w, ids).over ==> imports_passed(
            store,
            ids,
            imported(store, w, ids).queue.to_set(),
            imported(store, w, ids).files,
        ),
        forall|v: Set<u64>, f: Set<Seq<char>>|
            within(w, v, f) && #[trigger] imports_passed(store, ids, v, f) ==> within(
                imported(store, w, ids),
                v,
                f,
            ),
    decreases ids.len(),
{
    let g = imported(store, w, ids);
    if ids.len() == 0 {
        assert(w.queue.subrange(0, w.queue.len() as int) =~= w.queue);
    } else {
        let rest = ids.drop_last();
        lemma_imported(store, hits, w, rest);
        let p = imported(store, w, rest);
        assert forall|v: Set<u64>, f: Set<Seq<char>>| imports_passed(
            store,
            ids,
            v,
            f,
        ) implies #[trigger] imports_passed(store, rest, v, f) by {
            assert forall|i: int| 0 <= i < rest.len() implies all_taken(
                store,
                store.arriving(#[trigger] rest[i]),
                Rule::Import,
                v,
                f,
            ) by {
                assert(rest[i] == ids[i]);
            }
        }
        if !p.over {
            let edges = store.arriving(ids.last());
            lemma_arriving(store, ids.last());
            lemma_followed(store, hits, p, edges, Rule::Import);
            lemma_grows_on(w, p, g);
            lemma_grows(p, g);
            if !g.over {
                assert forall|i: int| 0 <= i < ids.len() implies all_taken(
                    store,
                    store.arriving(#[trigger] ids[i]),
                    Rule::Import,
                    g.queue.to_set(),
                    g.files,
                ) by {
                    if i < rest.len() {
                        assert(rest[i] == ids[i]);
                        lemma_all_taken(
                            store,
                            store.arriving(rest[i]),
                            Rule::Import,
                            p.queue.to_set(),
                            p.files,
                            g.queue.to_set(),
                            g.files,
                        );
                    }
                }
            }
            assert forall|v: Set<u64>, f: Set<Seq<char>>|
                within(w, v, f) && #[trigger] imports_passed(store, ids, v, f) implies within(
                g,
                v,
                f,
            ) by {
                assert(imports_passed(store, rest, v, f));
                assert(within(p, v, f));
                assert(all_taken(store, store.arriving(ids[ids.len() - 1]), Rule::Import, v, f));
            }
        } else {
            assert forall|v: Set<u64>, f: Set<Seq<char>>|
                within(w, v, f) && #[trigger] imports_passed(store, ids, v, f) implies within(
                g,
                v,
                f,
            ) by {
                assert(imports_passed(store, rest, v, f));
            }
        }
    }
}

proof fn lemma_file_grows(
    store: Store,
    file: Seq<char>,
    v: Set<u64>,
    f: Set<Seq<char>>,
    v2: Set<u64>,
    f2: Set<Seq<char>>,
)
    requires
        file_passed(store, file, v, f),
        v.subset_of(v2),
        f.subset_of(f2),
    ensures
        file_passed(store, file, v2, f2),
{
    assert forall|k: int|
        0 <= k < store.imports@.len() && crate::blast::bridges(
            #[trigger] store.imports@[k],
            file,
        ) implies all_taken(store, store.arriving(store.imports@[k].id), Rule::Import, v2, f2) by {
        lemma_all_taken(
            store,
            store.arriving(store.imports@[k].id),
            Rule::Import,
            v,
            f,
            v2,
            f2,
        );
    }
}

/// A file has passed a change on where its importers have.
proof fn lemma_file_passed(store: Store, file: Seq<char>, v: Set<u64>, f: Set<Seq<char>>)
    ensures
        file_passed(store, file, v, f) <==> imports_passed(
            store,
            crate::blast::importers(store, file),
            v,
            f,
        ),
{
    let ids = crate::blast::importers(store, file);
    if imports_passed(store, ids, v, f) {
        assert forall|k: int|
            0 <= k < store.imports@.len() && crate::blast::bridges(
                #[trigger] store.imports@[k],
                file,
            ) implies all_taken(
            store,
            store.arriving(store.imports@[k].id),
            Rule::Import,
            v,
            f,
        ) by {
            let id = store.imports@[k].id;
            crate::blast::lemma_importers(store, file, id);
            assert(ids.contains(id));
            let i = choose|i: int| 0 <= i < ids.len() && ids[i] == id;
            assert(all_taken(store, store.arriving(ids[i]), Rule::Import, v, f));
        }
    }
    if file_passed(store, file, v, f) {
        assert forall|i: int| 0 <= i < ids.len() implies all_taken(
            store,
            store.arriving(#[trigger] ids[i]),
            Rule::Import,
            v,
            f,
        ) by {
            crate::blast::lemma_importers(store, file, ids[i]);
            assert(ids.contains(ids[i]));
            let k = choose|k: int|
                0 <= k < store.imports@.len() && crate::blast::bridges(
                    #[trigger] store.imports@[k],
                    file,
                ) && store.imports@[k].id == ids[i];
            assert(all_taken(store, store.arriving(store.imports@[k].id), Rule::Import, v, f));
        }
    }
}

/// The walk so far stays inside every set that holds what spreads.
spec fn sound(store: Store, mode: AnalysisMode, hits: Seq<Node>, w: Front) -> bool {
    forall|v: Set<u64>, f: Set<Seq<char>>| #[trigger]
        spread(store, mode, hits, v, f) ==> within(w, v, f)
}

/// The nodes before the next have passed the change on.
spec fn nodes_done(store: Store, mode: AnalysisMode, w: Front) -> bool {
    forall|k: int|
        0 <= k < w.next ==> node_passed(
            store,
            mode,
            #[trigger] w.queue[k],
            w.queue.to_set(),
            w.files,
        )
}

spec fn files_done(store: Store, w: Front) -> bool {
    forall|p: Seq<char>| #[trigger]
        w.done.contains(p) ==> file_passed(store, p, w.queue.to_set(), w.files)
}

/// The files are at most the most that are followed, unless the seeds are in more.
spec fn bounded(hits: Seq<Node>, w: Front) -> bool {
    w.files.len() <= MAX_BLAST_RADIUS_NODES || w.files == seed_files(hits)
}

/// What every step keeps.
spec fn keeps(store: Store, mode: AnalysisMode, hits: Seq<Node>, w: Front) -> bool {
    &&& ok(store, hits, w)
    &&& seeded(hits, w.queue.to_set(), w.files)
    &&& w.next <= w.queue.len()
    &&& w.todo.no_duplicates()
    &&& forall|i: int|
        0 <= i < w.todo.len() ==> w.files.contains(#[trigger] w.todo[i]) && !w.done.contains(
            w.todo[i],
        )
    &&& w.done.subset_of(w.files)
    &&& w.todo.len() > 0 ==> mode == AnalysisMode::TreeSitter
    &&& w.todo.len() > 0 && !w.over ==> w.files.len() < MAX_BLAST_RADIUS_NODES
    &&& bounded(hits, w)
    &&& sound(store, mode, hits, w)
    &&& !w.over ==> nodes_done(store, mode, w) && files_done(store, w)
    &&& w.over ==> is_full(w) || spread(store, mode, hits, w.queue.to_set(), w.files)
}

/// What was done stays done as a walk goes on.
proof fn lemma_stays_done(store: Store, mode: AnalysisMode, w: Front, g: Front)
    requires
        grows(w, g),
        w.next <= w.queue.len(),
        nodes_done(store, mode, w),
        files_done(store, w),
    ensures
        nodes_done(store, mode, g),
        files_done(store, g),
{
    lemma_grows(w, g);
    assert forall|k: int| 0 <= k < g.next implies node_passed(
        store,
        mode,
        #[trigger] g.queue[k],
        g.queue.to_set(),
        g.files,
    ) by {
        assert(w.queue[k] == g.queue[k]);
        assert(node_passed(store, mode, w.queue[k], w.queue.to_set(), w.files));
        lemma_all_taken(
            store,
            store.arriving(w.queue[k]),
            Rule::Mode(mode),
            w.queue.to_set(),
            w.files,
            g.queue.to_set(),
            g.files,
        );
    }
    assert forall|p: Seq<char>| #[trigger] g.done.contains(p) implies file_passed(
        store,
        p,
        g.queue.to_set(),
        g.files,
    ) by {
        lemma_file_grows(store, p, w.queue.to_set(), w.files, g.queue.to_set(), g.files);
    }
}

proof fn lemma_file_step(store: Store, mode: AnalysisMode, hits: Seq<Node>, w: Front)
    requires
        keeps(store, mode, hits, w),
        !w.over,
        w.todo.len() > 0,
    ensures
        keeps(store, mode, hits, step(store, mode, w)),
{
    let p = w.todo[0];
    let ids = crate::blast::importers(store, p);
    let g = imported(store, w, ids);
    let r = step(store, mode, w);
    lemma_imported(store, hits, w, ids);
    lemma_grows(w, g);
    assert(w.files.contains(w.todo[0]));
    assert(r.todo =~= w.todo.skip(1));
    assert forall|i: int| 0 <= i < r.todo.len() implies r.files.contains(#[trigger] r.todo[i])
        && !r.done.contains(r.todo[i]) by {
        assert(r.todo[i] == w.todo[i + 1]);
        assert(w.files.contains(w.todo[i + 1]));
    }
    assert forall|v: Set<u64>, f: Set<Seq<char>>| #[trigger]
        spread(store, mode, hits, v, f) implies within(r, v, f) by {
        assert(within(w, v, f));
        assert(f.contains(p));
        assert(file_passed(store, p, v, f));
        lemma_file_passed(store, p, v, f);
        assert(imports_passed(store, ids, v, f));
        assert(within(g, v, f));
    }
    if !g.over {
        lemma_stays_done(store, mode, w, g);
        lemma_file_passed(store, p, g.queue.to_set(), g.files);
        assert forall|k: int| 0 <= k < r.next implies node_passed(
            store,
            mode,
            #[trigger] r.queue[k],
            r.queue.to_set(),
            r.files,
        ) by {
            assert(node_passed(store, mode, g.queue[k], g.queue.to_set(), g.files));
        }
        assert forall|q: Seq<char>| #[trigger] r.done.contains(q) implies file_passed(
            store,
            q,
            r.queue.to_set(),
            r.files,
        ) by {
            if q != p {
                assert(g.done.contains(q));
            }
        }
    }
}

proof fn lemma_node_step(store: Store, mode: AnalysisMode, hits: Seq<Node>, w: Front)
    requires
        keeps(store, mode, hits, w),
        !w.over,
        w.todo.len() == 0,
        !is_full(w),
        w.next < w.queue.len(),
    ensures
        keeps(store, mode, hits, step(store, mode, w)),
{
    let id = w.queue[w.next as int];
    let edges = store.arriving(id);
    let g = followed(store, w, edges, Rule::Mode(mode));
    let r = step(store, mode, w);
    lemma_arriving(store, id);
    lemma_followed(store, hits, w, edges, Rule::Mode(mode));
    lemma_grows(w, g);
    assert forall|v: Set<u64>, f: Set<Seq<char>>| #[trigger]
        spread(store, mode, hits, v, f) implies within(r, v, f) by {
        assert(within(w, v, f));
        assert(w.queue.to_set().contains(id));
        assert(v.contains(id));
        assert(node_passed(store, mode, id, v, f));
        assert(all_taken(store, edges, Rule::Mode(mode), v, f));
        assert(within(g, v, f));
    }
    if !g.over {
        lemma_stays_done(store, mode, w, g);
        assert forall|k: int| 0 <= k < r.next implies node_passed(
            store,
            mode,
            #[trigger] r.queue[k],
            r.queue.to_set(),
            r.files,
        ) by {
            if k < w.next {
                assert(node_passed(store, mode, g.queue[k], g.queue.to_set(), g.files));
            } else {
                assert(g.queue[k] == id);
            }
        }
        assert forall|q: Seq<char>| #[trigger] r.done.contains(q) implies file_passed(
            store,
            q,
            r.queue.to_set(),
            r.files,
        ) by {
            assert(g.done.contains(q));
        }
    }
}

proof fn lemma_last_step(store: Store, mode: AnalysisMode, hits: Seq<Node>, w: Front)
    requires
        keeps(store, mode, hits, w),
        !w.over,
        w.todo.len() == 0,
        !is_full(w),
        w.next >= w.queue.len(),
    ensures
        keeps(store, mode, hits, step(store, mode, w)),
{
    let left = w.files.difference(w.done);
    let rest = crate::order::sorted_of(left);
    vstd::set_lib::lemma_set_subset_finite(w.files, left);
    crate::order::law_finite_set_is_sorted(left);
    crate::order::lemma_ascending_distinct(rest);
    let r = step(store, mode, w);
    if r.over {
        let v = w.queue.to_set();
        assert forall|id: u64| #[trigger] v.contains(id) implies node_passed(
            store,
            mode,
            id,
            v,
            w.files,
        ) by {
            let k = choose|k: int| 0 <= k < w.queue.len() && w.queue[k] == id;
            assert(node_passed(store, mode, w.queue[k], v, w.files));
        }
        if mode == AnalysisMode::TreeSitter {
            assert forall|p: Seq<char>| #[trigger] w.files.contains(p) implies file_passed(
                store,
                p,
                v,
                w.files,
            ) by {
                if !w.done.contains(p) {
                    assert(left.contains(p));
                    assert(rest.to_set().contains(p));
                }
                assert(w.done.contains(p));
            }
        }
    } else {
        assert forall|i: int| 0 <= i < rest.len() implies w.files.contains(#[trigger] rest[i])
            && !w.done.contains(rest[i]) by {
            assert(rest.to_set().contains(rest[i]));
            assert(left.contains(rest[i]));
        }
        assert(nodes_done(store, mode, r)) by {
            assert forall|k: int| 0 <= k < r.next implies node_passed(
                store,
                mode,
                #[trigger] r.queue[k],
                r.queue.to_set(),
                r.files,
            ) by {
                assert(node_passed(store, mode, w.queue[k], w.queue.to_set(), w.files));
            }
        }
    }
    assert forall|v: Set<u64>, f: Set<Seq<char>>| #[trigger]
        spread(store, mode, hits, v, f) implies within(r, v, f) by {
        assert(within(w, v, f));
    }
}

proof fn lemma_step(store: Store, mode: AnalysisMode, hits: Seq<Node>, w: Front)
    requires
        keeps(store, mode, hits, w),
    ensures
        keeps(store, mode, hits, step(store, mode, w)),
{
    if !w.over {
        if w.todo.len() > 0 {
            lemma_file_step(store, mode, hits, w);
        } else if is_full(w) {
            let r = step(store, mode, w);
            assert forall|v: Set<u64>, f: Set<Seq<char>>| #[trigger]
                spread(store, mode, hits, v, f) implies within(r, v, f) by {
                assert(within(w, v, f));
            }
        } else if w.next < w.queue.len() {
            lemma_node_step(store, mode, hits, w);
        } else {
            lemma_last_step(store, mode, hits, w);
        }
    }
}

/// How many more steps a walk can take.
spec fn left(store: Store, hits: Seq<Node>, w: Front) -> int {
    universe(store, hits).len() - w.next + 2 * (places(store, hits).len() - w.done.len()) + (
    if w.todo.len() == 0 {
        1int
    } else {
        0
    })
}

proof fn lemma_left(store: Store, mode: AnalysisMode, hits: Seq<Node>, w: Front)
    requires
        keeps(store, mode, hits, w),
    ensures
        left(store, hits, w) >= 0,
        !w.over && !step(store, mode, w).over ==> left(store, hits, step(store, mode, w)) < left(
            store,
            hits,
            w,
        ),
{
    crate::order::lemma_distinct_within(w.queue, universe(store, hits));
    let all = places(store, hits).to_set();
    places(store, hits).lemma_cardinality_of_set();
    assert(w.done.subset_of(all));
    vstd::set_lib::lemma_len_subset(w.done, all);
    vstd::set_lib::lemma_set_subset_finite(w.files, w.done);
    if !w.over {
        if w.todo.len() > 0 {
            let ids = crate::blast::importers(store, w.todo[0]);
            lemma_imported(store, hits, w, ids);
            assert(!w.done.contains(w.todo[0]));
        } else if !is_full(w) && w.next < w.queue.len() {
            let id = w.queue[w.next as int];
            lemma_arriving(store, id);
            lemma_followed(store, hits, w, store.arriving(id), Rule::Mode(mode));
        }
    }
}

proof fn lemma_start(store: Store, hits: Seq<Node>, n: int)
    requires
        0 <= n <= hits.len(),
    ensures
        ok(store, hits, start(hits.take(n))),
        seeded(hits.take(n), start(hits.take(n)).queue.to_set(), start(hits.take(n)).files),
        start(hits.take(n)).files == seed_files(hits.take(n)),
        forall|v: Set<u64>, f: Set<Seq<char>>| #[trigger]
            seeded(hits, v, f) ==> within(start(hits.take(n)), v, f),
        start(hits.take(n)).next == 0,
        start(hits.take(n)).todo.len() == 0,
        start(hits.take(n)).done == Set::<Seq<char>>::empty(),
        !start(hits.take(n)).over,
    decreases n,
{
    let t = hits.take(n);
    let g = start(t);
    if n == 0 {
        assert(g.files =~= seed_files(t));
    } else {
        lemma_start(store, hits, n - 1);
        assert(t.drop_last() =~= hits.take(n - 1));
        let w = start(hits.take(n - 1));
        let h = hits[n - 1];
        assert(t.last() == h);
        assert(universe(store, hits)[n - 1] == h.id);
        assert(places(store, hits)[n - 1] == h.path@);
        if w.queue.contains(h.id) {
            assert(w.queue.to_set().contains(h.id));
            assert(w.queue.to_set() =~= w.queue.to_set().insert(h.id));
        } else {
            crate::order::lemma_to_set_push(w.queue, h.id);
            assert forall|x: int, y: int|
                0 <= x < g.queue.len() && 0 <= y < g.queue.len() && x != y implies g.queue[x]
                != g.queue[y] by {
                if x < w.queue.len() {
                    assert(w.queue.contains(w.queue[x]));
                }
                if y < w.queue.len() {
                    assert(w.queue.contains(w.queue[y]));
                }
            }
            assert forall|k: int| 0 <= k < g.queue.len() implies universe(store, hits).contains(
                #[trigger] g.queue[k],
            ) by {
                if k < w.queue.len() {
                    assert(universe(store, hits).contains(w.queue[k]));
                }
            }
        }
        assert(g.queue.to_set() == w.queue.to_set().insert(h.id));
        assert forall|i: int| 0 <= i < t.len() implies g.queue.to_set().contains(
            (#[trigger] t[i]).id,
        ) && (t[i].path@.len() > 0 ==> g.files.contains(t[i].path@)) by {
            if i < n - 1 {
                assert(hits.take(n - 1)[i] == t[i]);
            }
        }
        assert forall|p: Seq<char>| g.files.contains(p) <==> seed_files(t).contains(p) by {
            if w.files.contains(p) {
                let i = choose|i: int|
                    0 <= i < n - 1 && (#[trigger] hits.take(n - 1)[i]).path@ == p;
                assert(t[i].path@ == p);
            }
            if p == h.path@ {
                assert(t[n - 1].path@ == p);
            }
            if seed_files(t).contains(p) {
                let i = choose|i: int| 0 <= i < t.len() && (#[trigger] t[i]).path@ == p;
                if i < n - 1 {
                    assert(hits.take(n - 1)[i].path@ == p);
                }
            }
        }
        assert(g.files =~= seed_files(t));
        assert forall|v: Set<u64>, f: Set<Seq<char>>| #[trigger]
            seeded(hits, v, f) implies within(g, v, f) by {
            assert(within(w, v, f));
            assert(v.contains(hits[n - 1].id));
        }
    }
}

proof fn lemma_keeps(store: Store, mode: AnalysisMode, hits: Seq<Node>, k: nat)
    ensures
        keeps(store, mode, hits, after(store, mode, hits, k)),
    decreases k,
{
    if k == 0 {
        lemma_start(store, hits, hits.len() as int);
        assert(hits.take(hits.len() as int) =~= hits);
        let w = start(hits);
        assert forall|v: Set<u64>, f: Set<Seq<char>>| #[trigger]
            spread(store, mode, hits, v, f) implies within(w, v, f) by {
            assert(seeded(hits, v, f));
        }
    } else {
        lemma_keeps(store, mode, hits, (k - 1) as nat);
        lemma_step(store, mode, hits, after(store, mode, hits, (k - 1) as nat));
    }
}

/// Every walk ends.
proof fn lemma_ends(store: Store, mode: AnalysisMode, hits: Seq<Node>, k: nat) -> (m: nat)
    ensures
        is_over(store, mode, hits, m),
    decreases left(store, hits, after(store, mode, hits, k)) + 1,
{
    let w = after(store, mode, hits, k);
    lemma_keeps(store, mode, hits, k);
    lemma_left(store, mode, hits, w);
    if w.over {
        k
    } else {
        let r = after(store, mode, hits, k + 1);
        assert(r == step(store, mode, w));
        lemma_keeps(store, mode, hits, k + 1);
        lemma_left(store, mode, hits, r);
        if r.over {
            k + 1
        } else {
            lemma_ends(store, mode, hits, k + 1)
        }
    }
}

proof fn lemma_affected_finite(store: Store, mode: AnalysisMode, hits: Seq<Node>)
    ensures
        affected_nodes(store, mode, hits).finite(),
        affected_files(store, mode, hits).finite(),
{
    let v = universe(store, hits).to_set();
    let f = places(store, hits).to_set();
    assert(spread(store, mode, hits, v, f)) by {
        assert forall|i: int| 0 <= i < hits.len() implies v.contains((#[trigger] hits[i]).id) && (
        hits[i].path@.len() > 0 ==> f.contains(hits[i].path@)) by {
            assert(universe(store, hits)[i] == hits[i].id);
            assert(places(store, hits)[i] == hits[i].path@);
        }
        assert forall|id: u64, rule: Rule| #[trigger]
            all_taken(store, store.arriving(id), rule, v, f) by {
            lemma_arriving(store, id);
            let edges = store.arriving(id);
            assert forall|i: int|
                0 <= i < edges.len() && carries(rule, (#[trigger] edges[i]).kind) implies taken(
                store,
                edges[i].src,
                v,
                f,
            ) by {
                assert(store.edges@.contains(edges[i]));
                let k = choose|k: int| 0 <= k < store.edges@.len() && store.edges@[k] == edges[i];
                assert(universe(store, hits)[hits.len() + k] == edges[i].src);
                if let Some(n) = store.node(edges[i].src) {
                    crate::store::lemma_find_node(store.nodes@, edges[i].src);
                    assert(store.nodes@.contains(n));
                    let j = choose|j: int| 0 <= j < store.nodes@.len() && store.nodes@[j] == n;
                    assert(places(store, hits)[hits.len() + j] == n.path@);
                }
            }
        }
    }
    assert(affected_nodes(store, mode, hits).subset_of(v));
    assert(affected_files(store, mode, hits).subset_of(f));
    vstd::set_lib::lemma_set_subset_finite(v, affected_nodes(store, mode, hits));
    vstd::set_lib::lemma_set_subset_finite(f, affected_files(store, mode, hits));
}

// ---------------------------------------------------------------- walking

struct Walk {
    visited: HashSet<u64>,
    /// The visited nodes in order of discovery.
    queue: Vec<u64>,
    /// The affected files in order.
    files: Vec<String>,
    next: usize,
    todo: Vec<String>,
    /// How many of the files to do are done.
    at: usize,
    done: Vec<String>,
    over: bool,
}

proof fn lemma_listed(v: Seq<Seq<char>>)
    requires
        crate::order::ascending(v),
    ensures
        v.to_set().len() == v.len(),
        v.to_set().finite(),
{
    crate::order::lemma_ascending_distinct(v);
    v.unique_seq_to_set();
}

impl Walk {
    spec fn is(self, w: Front) -> bool {
        &&& self.queue@ == w.queue
        &&& self.queue@.to_set() == self.visited@
        &&& crate::order::ascending(crate::text::views(self.files@))
        &&& crate::text::views(self.files@).to_set() == w.files
        &&& self.next == w.next
        &&& self.at <= self.todo@.len()
        &&& crate::text::views(self.todo@).skip(self.at as int) == w.todo
        &&& crate::order::ascending(crate::text::views(self.done@))
        &&& crate::text::views(self.done@).to_set() == w.done
        &&& self.over == w.over
    }

    /// Finds a node.
    fn visit(&mut self, id: u64)
        requires
            old(self).queue@.to_set() == old(self).visited@,
        ensures
            final(self).queue@ == (if old(self).queue@.contains(id) {
                old(self).queue@
            } else {
                old(self).queue@.push(id)
            }),
            final(self).queue@.to_set() == final(self).visited@,
            final(self).files == old(self).files,
            final(self).next == old(self).next,
            final(self).todo == old(self).todo,
            final(self).at == old(self).at,
            final(self).done == old(self).done,
            final(self).over == old(self).over,
    {
        let ghost q = self.queue@;
        assert(q.to_set().contains(id) == q.contains(id));
        if self.visited.insert(id) {
            self.queue.push(id);
            proof {
                crate::order::lemma_to_set_push(q, id);
            }
        } else {
            assert(self.visited@ =~= old(self).visited@);
        }
    }

    /// Finds a node and its file.
    fn touch(&mut self, store: &Store, id: u64, Ghost(w): Ghost<Front>)
        requires
            old(self).is(w),
        ensures
            final(self).is(touched(*store, w, id)),
    {
        self.visit(id);
        let ghost before = crate::text::views(self.files@).to_set();
        if let Some(n) = store.get_node(id) {
            if !n.path.as_str().is_empty() {
                insert_member(&mut self.files, n.path.clone());
                assert(crate::text::views(self.files@).to_set() =~= before.union(
                    file_of(*store, id),
                ));
            }
        }
        assert(crate::text::views(self.files@).to_set() =~= before.union(file_of(*store, id)));
        proof {
            lemma_listed(crate::text::views(self.files@));
        }
        self.over = self.files.len() >= MAX_BLAST_RADIUS_NODES;
    }

    /// Finds the sources of the edges that carry a change.
    fn follow(&mut self, store: &Store, edges: &Vec<Edge>, rule: Rule, Ghost(w): Ghost<Front>)
        requires
            old(self).is(w),
        ensures
            final(self).is(followed(*store, w, edges@, rule)),
    {
        let mut i: usize = 0;
        while i < edges.len()
            invariant
                i <= edges@.len(),
                self.is(followed(*store, w, edges@.take(i as int), rule)),
            decreases edges@.len() - i,
        {
            assert(edges@.take(i + 1).drop_last() =~= edges@.take(i as int));
            let ghost now = followed(*store, w, edges@.take(i as int), rule);
            if !self.over && does_carry(rule, edges[i].kind) {
                self.touch(store, edges[i].src, Ghost(now));
            }
            i += 1;
        }
        assert(edges@.take(i as int) =~= edges@);
    }

    /// Finds the files of the imports.
    fn import(&mut self, store: &Store, ids: &Vec<u64>, Ghost(w): Ghost<Front>)
        requires
            old(self).is(w),
        ensures
            final(self).is(imported(*store, w, ids@)),
    {
        let mut i: usize = 0;
        while i < ids.len()
            invariant
                i <= ids@.len(),
                self.is(imported(*store, w, ids@.take(i as int))),
            decreases ids@.len() - i,
        {
            assert(ids@.take(i + 1).drop_last() =~= ids@.take(i as int));
            let ghost now = imported(*store, w, ids@.take(i as int));
            if !self.over {
                let edges = store.edges_to(ids[i]);
                self.follow(store, &edges, Rule::Import, Ghost(now));
            }
            i += 1;
        }
        assert(ids@.take(i as int) =~= ids@);
    }

    /// Takes one step.
    fn step(&mut self, store: &Store, mode: AnalysisMode, Ghost(w): Ghost<Front>)
        requires
            old(self).is(w),
            !w.over,
            w.next <= w.queue.len(),
        ensures
            final(self).is(step(*store, mode, w)),
    {
        let ghost tv = crate::text::views(self.todo@);
        proof {
            lemma_listed(crate::text::views(self.files@));
        }
        if self.at < self.todo.len() {
            assert(w.todo[0] == tv[self.at as int]);
            let file = self.todo[self.at].clone();
            let ids = importers_of(store, file.as_str());
            self.import(store, &ids, Ghost(w));
            proof {
                lemma_import_keeps(*store, w, ids@);
                assert(crate::text::views(self.todo@).skip(self.at as int) == w.todo);
                assert(crate::text::views(self.todo@).skip(self.at + 1) =~= w.todo.skip(1));
                assert(crate::text::views(self.todo@).len() == self.todo@.len());
                assert(self.at < self.todo.len());
            }
            insert_member(&mut self.done, file);
            self.at = self.at + 1;
        } else if self.queue.len() >= MAX_BLAST_RADIUS_NODES || self.files.len()
            >= MAX_BLAST_RADIUS_NODES {
            self.over = true;
        } else if self.next < self.queue.len() {
            let id: u64 = self.queue[self.next];
            let edges = store.edges_to(id);
            self.follow(store, &edges, Rule::Mode(mode), Ghost(w));
            proof {
                lemma_follow_keeps(*store, w, edges@, Rule::Mode(mode));
            }
            self.next = self.next + 1;
        } else {
            let rest = to_do(&self.files, &self.done);
            proof {
                crate::order::lemma_sorted_of(crate::text::views(rest@));
                assert(crate::text::views(rest@).len() == rest@.len());
                assert(crate::text::views(rest@).skip(0) =~= crate::text::views(rest@));
            }
            if mode != AnalysisMode::TreeSitter || rest.len() == 0 {
                self.over = true;
            } else {
                self.todo = rest;
                self.at = 0;
            }
        }
    }
}

proof fn lemma_follow_keeps(store: Store, w: Front, edges: Seq<Edge>, rule: Rule)
    ensures
        followed(store, w, edges, rule).next == w.next,
        followed(store, w, edges, rule).todo == w.todo,
        followed(store, w, edges, rule).done == w.done,
    decreases edges.len(),
{
    if edges.len() > 0 {
        lemma_follow_keeps(store, w, edges.drop_last(), rule);
    }
}

proof fn lemma_import_keeps(store: Store, w: Front, ids: Seq<u64>)
    ensures
        imported(store, w, ids).next == w.next,
        imported(store, w, ids).todo == w.todo,
        imported(store, w, ids).done == w.done,
    decreases ids.len(),
{
    if ids.len() > 0 {
        lemma_import_keeps(store, w, ids.drop_last());
        lemma_follow_keeps(
            store,
            imported(store, w, ids.drop_last()),
            store.arriving(ids.last()),
            Rule::Import,
        );
    }
}

/// The files that are affected and not yet done, in order.
fn to_do(files: &Vec<String>, done: &Vec<String>) -> (r: Vec<String>)
    requires
        crate::order::ascending(crate::text::views(files@)),
        crate::order::ascending(crate::text::views(done@)),
    ensures
        crate::order::ascending(crate::text::views(r@)),
        crate::text::views(r@).to_set() == crate::text::views(files@).to_set().difference(
            crate::text::views(done@).to_set(),
        ),
{
    let mut r: Vec<String> = Vec::new();
    let ghost fv = crate::text::views(files@);
    let ghost dv = crate::text::views(done@);
    let mut i: usize = 0;
    assert(crate::text::views(r@) =~= Seq::<Seq<char>>::empty());
    assert(crate::text::views(r@).to_set() =~= fv.take(0).to_set().difference(dv.to_set()));
    while i < files.len()
        invariant
            i <= files@.len(),
            fv == crate::text::views(files@),
            dv == crate::text::views(done@),
            crate::order::ascending(dv),
            crate::order::ascending(crate::text::views(r@)),
            crate::text::views(r@).to_set() == fv.take(i as int).to_set().difference(dv.to_set()),
        decreases files@.len() - i,
    {
        assert(fv[i as int] == files@[i as int]@);
        let ghost was = crate::text::views(r@).to_set();
        proof {
            assert(fv.take(i + 1) =~= fv.take(i as int).push(fv[i as int]));
            crate::order::lemma_to_set_push(fv.take(i as int), fv[i as int]);
            assert(dv.to_set().contains(fv[i as int]) == dv.contains(fv[i as int]));
        }
        if !is_member(done, files[i].as_str()) {
            insert_member(&mut r, files[i].clone());
            assert(crate::text::views(r@).to_set() =~= was.insert(fv[i as int]));
        }
        i += 1;
        assert(crate::text::views(r@).to_set() =~= fv.take(i as int).to_set().difference(
            dv.to_set(),
        ));
    }
    assert(fv.take(i as int) =~= fv);
    r
}

fn seed_walk(hits: &Vec<Node>) -> (r: Walk)
    ensures
        r.is(start(hits@)),
{
    let mut w = Walk {
        visited: HashSet::new(),
        queue: Vec::new(),
        files: Vec::new(),
        next: 0,
        todo: Vec::new(),
        at: 0,
        done: Vec::new(),
        over: false,
    };
    let mut i: usize = 0;
    proof {
        assert(w.queue@ =~= start(hits@.take(0)).queue);
        assert(w.queue@.to_set() =~= w.visited@);
        assert(crate::text::views(w.files@) =~= Seq::<Seq<char>>::empty());
        assert(crate::text::views(w.files@).to_set() =~= Set::empty());
        assert(crate::text::views(w.done@) =~= Seq::<Seq<char>>::empty());
        assert(crate::text::views(w.done@).to_set() =~= Set::empty());
        assert(crate::text::views(w.todo@).skip(0) =~= Seq::<Seq<char>>::empty());
    }
    while i < hits.len()
        invariant
            i <= hits@.len(),
            w.is(start(hits@.take(i as int))),
        decreases hits@.len() - i,
    {
        assert(hits@.take(i + 1).drop_last() =~= hits@.take(i as int));
        let n = &hits[i];
        w.visit(n.id);
        if !n.path.as_str().is_empty() {
            insert_member(&mut w.files, n.path.clone());
        }
        i += 1;
    }
    assert(hits@.take(i as int) =~= hits@);
    w
}

/// The files that a change to the seeds affects, in order.
pub fn radius_of(store: &Store, mode: AnalysisMode, hits: &Vec<Node>) -> (r: Vec<String>)
    ensures
        crate::text::views(r@) == crate::order::sorted_of(radius(*store, mode, hits@)),
{
    let mut w = seed_walk(hits);
    let ghost mut k: nat = 0;
    proof {
        lemma_keeps(*store, mode, hits@, 0);
        lemma_left(*store, mode, hits@, start(hits@));
    }
    while !w.over
        invariant
            w.is(after(*store, mode, hits@, k)),
            keeps(*store, mode, hits@, after(*store, mode, hits@, k)),
        decreases
            (if w.over {
                0
            } else {
                left(*store, hits@, after(*store, mode, hits@, k)) + 1
            }),
    {
        let ghost now = after(*store, mode, hits@, k);
        proof {
            lemma_left(*store, mode, hits@, now);
        }
        w.step(store, mode, Ghost(now));
        proof {
            k = k + 1;
            assert(after(*store, mode, hits@, k) == step(*store, mode, now));
            lemma_keeps(*store, mode, hits@, k);
            lemma_left(*store, mode, hits@, after(*store, mode, hits@, k));
        }
    }
    proof {
        assert(is_over(*store, mode, hits@, k));
        lemma_radius(*store, mode, hits@, k);
        crate::order::lemma_sorted_of(crate::text::views(w.files@));
    }
    w.files
}

// ---------------------------------------------------------------- laws

/// The radius holds the seeds' files and nothing that is not affected. It is all that is affected,
/// unless the nodes or the files reach the most that are followed; and it holds no more files than
/// those, unless the seeds are in more.
pub proof fn law_radius_is_what_is_affected(store: Store, mode: AnalysisMode, hits: Seq<Node>)
    ensures
        radius(store, mode, hits).finite(),
        seed_files(hits).subset_of(radius(store, mode, hits)),
        radius(store, mode, hits).subset_of(affected_files(store, mode, hits)),
        radius(store, mode, hits).len() <= MAX_BLAST_RADIUS_NODES || radius(store, mode, hits)
            == seed_files(hits),
        affected_nodes(store, mode, hits).len() < MAX_BLAST_RADIUS_NODES && affected_files(
            store,
            mode,
            hits,
        ).len() < MAX_BLAST_RADIUS_NODES ==> radius(store, mode, hits) == affected_files(
            store,
            mode,
            hits,
        ),
        radius(store, mode, hits) == affected_files(store, mode, hits) || radius(
            store,
            mode,
            hits,
        ).len() >= MAX_BLAST_RADIUS_NODES || affected_nodes(store, mode, hits).len()
            >= MAX_BLAST_RADIUS_NODES,
{
    let k = lemma_ends(store, mode, hits, 0);
    lemma_radius(store, mode, hits, k);
    lemma_keeps(store, mode, hits, k);
    lemma_affected_finite(store, mode, hits);
    let w = after(store, mode, hits, k);
    let all = affected_files(store, mode, hits);
    let nodes = affected_nodes(store, mode, hits);
    assert forall|p: Seq<char>| seed_files(hits).contains(p) implies w.files.contains(p) by {
        let i = choose|i: int| 0 <= i < hits.len() && (#[trigger] hits[i]).path@ == p;
        assert(w.files.contains(hits[i].path@));
    }
    assert forall|p: Seq<char>| w.files.contains(p) implies all.contains(p) by {
        assert forall|v: Set<u64>, f: Set<Seq<char>>| #[trigger]
            spread(store, mode, hits, v, f) implies f.contains(p) by {
            assert(within(w, v, f));
        }
    }
    assert forall|id: u64| w.queue.to_set().contains(id) implies nodes.contains(id) by {
        assert forall|v: Set<u64>, f: Set<Seq<char>>| #[trigger]
            spread(store, mode, hits, v, f) implies v.contains(id) by {
            assert(within(w, v, f));
        }
    }
    vstd::set_lib::lemma_len_subset(w.files, all);
    vstd::set_lib::lemma_len_subset(w.queue.to_set(), nodes);
    w.queue.unique_seq_to_set();
    if spread(store, mode, hits, w.queue.to_set(), w.files) {
        assert forall|p: Seq<char>| all.contains(p) implies w.files.contains(p) by {}
        assert(w.files =~= all);
    }
}

/// What is affected through calls alone is affected through all edges.
pub proof fn law_semantic_radius_is_contained(store: Store, hits: Seq<Node>)
    ensures
        affected_nodes(store, AnalysisMode::Semantic, hits).subset_of(
            affected_nodes(store, AnalysisMode::TreeSitter, hits),
        ),
        affected_files(store, AnalysisMode::Semantic, hits).subset_of(
            affected_files(store, AnalysisMode::TreeSitter, hits),
        ),
{
    assert forall|v: Set<u64>, f: Set<Seq<char>>| #[trigger]
        spread(store, AnalysisMode::TreeSitter, hits, v, f) implies spread(
        store,
        AnalysisMode::Semantic,
        hits,
        v,
        f,
    ) by {
        assert forall|id: u64| #[trigger] v.contains(id) implies node_passed(
            store,
            AnalysisMode::Semantic,
            id,
            v,
            f,
        ) by {
            assert(node_passed(store, AnalysisMode::TreeSitter, id, v, f));
        }
    }
}

/// A change spreads on: what an affected node passes a change on to is affected.
pub proof fn law_change_spreads_along_edges(
    store: Store,
    mode: AnalysisMode,
    hits: Seq<Node>,
    id: u64,
    i: int,
)
    requires
        affected_nodes(store, mode, hits).contains(id),
        0 <= i < store.arriving(id).len(),
        carries(Rule::Mode(mode), store.arriving(id)[i].kind),
    ensures
        taken(
            store,
            store.arriving(id)[i].src,
            affected_nodes(store, mode, hits),
            affected_files(store, mode, hits),
        ),
{
    let e = store.arriving(id)[i];
    assert forall|v: Set<u64>, f: Set<Seq<char>>| #[trigger]
        spread(store, mode, hits, v, f) implies taken(store, e.src, v, f) by {
        assert(v.contains(id));
        assert(node_passed(store, mode, id, v, f));
    }
}

/// A change spreads through imports: a file whose import resolves to an affected file is affected.
pub proof fn law_change_spreads_through_imports(
    store: Store,
    hits: Seq<Node>,
    file: Seq<char>,
    k: int,
    i: int,
)
    requires
        affected_files(store, AnalysisMode::TreeSitter, hits).contains(file),
        0 <= k < store.imports@.len(),
        crate::blast::bridges(store.imports@[k], file),
        0 <= i < store.arriving(store.imports@[k].id).len(),
        store.arriving(store.imports@[k].id)[i].kind == EdgeKind::Depends,
    ensures
        taken(
            store,
            store.arriving(store.imports@[k].id)[i].src,
            affected_nodes(store, AnalysisMode::TreeSitter, hits),
            affected_files(store, AnalysisMode::TreeSitter, hits),
        ),
{
    let e = store.arriving(store.imports@[k].id)[i];
    assert forall|v: Set<u64>, f: Set<Seq<char>>| #[trigger]
        spread(store, AnalysisMode::TreeSitter, hits, v, f) implies taken(store, e.src, v, f) by {
        assert(f.contains(file));
        assert(file_passed(store, file, v, f));
        assert(crate::blast::bridges(store.imports@[k], file));
    }
}

/// The edge leads from what depends on its target: in one mode it is a definition, a call, a dependency
/// or a resolved import, in the other a call.
pub open spec fn is_dependence(mode: AnalysisMode, e: Edge) -> bool {
    match mode {
        AnalysisMode::TreeSitter => {
            ||| e.kind == EdgeKind::DefinesBinding
            ||| e.kind == EdgeKind::RefCall
            ||| e.kind == EdgeKind::Depends
            ||| e.kind == EdgeKind::ResolvesTo
        },
        AnalysisMode::Semantic => e.kind == EdgeKind::RefCall,
    }
}

/// The node and its file are among the given ones.
pub open spec fn has_node(store: Store, id: u64, v: Set<u64>, f: Set<Seq<char>>) -> bool {
    v.contains(id) && (store.node(id) matches Some(n) ==> n.path@.len() > 0 ==> f.contains(n.path@))
}

/// The given nodes and files hold the seeds; for every edge into one of the nodes whose source depends on
/// it, the source; and, unless only calls count, for every import that resolves to one of the files and
/// shares a word with its name, what depends on the import.
pub open spec fn is_closed(
    store: Store,
    mode: AnalysisMode,
    hits: Seq<Node>,
    v: Set<u64>,
    f: Set<Seq<char>>,
) -> bool {
    &&& forall|i: int| 0 <= i < hits.len() ==> v.contains((#[trigger] hits[i]).id)
    &&& forall|i: int|
        0 <= i < hits.len() && (#[trigger] hits[i]).path@.len() > 0 ==> f.contains(hits[i].path@)
    &&& forall|i: int|
        0 <= i < store.edges@.len() && v.contains((#[trigger] store.edges@[i]).dst)
            && !store.unread_incoming@.contains(store.edges@[i].dst) && is_dependence(
            mode,
            store.edges@[i],
        ) ==> has_node(store, store.edges@[i].src, v, f)
    &&& mode == AnalysisMode::TreeSitter ==> forall|k: int, r: int, i: int|
        0 <= k < store.imports@.len() && 0 <= r < store.imports@[k].resolves_to@.len() && 0 <= i
            < store.edges@.len() && f.contains(#[trigger] store.imports@[k].resolves_to@[r]@)
            && crate::blast::is_candidate(
            crate::blast::hints(store.imports@[k].resolves_to@[r]@),
            store.imports@[k].signature@,
        ) && (#[trigger] store.edges@[i]).dst == store.imports@[k].id
            && !store.unread_incoming@.contains(store.edges@[i].dst) && store.edges@[i].kind
            == EdgeKind::Depends ==> has_node(store, store.edges@[i].src, v, f)
}

proof fn lemma_closed_is_spread(
    store: Store,
    mode: AnalysisMode,
    hits: Seq<Node>,
    v: Set<u64>,
    f: Set<Seq<char>>,
)
    requires
        is_closed(store, mode, hits, v, f),
    ensures
        spread(store, mode, hits, v, f),
{
    assert forall|id: u64| #[trigger] v.contains(id) implies node_passed(store, mode, id, v, f) by {
        let es = store.arriving(id);
        assert forall|j: int|
            0 <= j < es.len() && carries(Rule::Mode(mode), (#[trigger] es[j]).kind) implies taken(
            store,
            es[j].src,
            v,
            f,
        ) by {
            crate::store::lemma_entering(store.edges@, id);
            assert(es.contains(es[j]));
            let i = choose|i: int| 0 <= i < store.edges@.len() && store.edges@[i] == es[j];
            assert(has_node(store, store.edges@[i].src, v, f));
        }
    }
    if mode == AnalysisMode::TreeSitter {
        assert forall|p: Seq<char>| #[trigger] f.contains(p) implies file_passed(store, p, v, f) by {
            assert forall|k: int|
                0 <= k < store.imports@.len() && crate::blast::bridges(
                    #[trigger] store.imports@[k],
                    p,
                ) implies all_taken(
                store,
                store.arriving(store.imports@[k].id),
                Rule::Import,
                v,
                f,
            ) by {
                let imp = store.imports@[k];
                let es = store.arriving(imp.id);
                let vs = crate::text::views(imp.resolves_to@);
                let r = choose|r: int| 0 <= r < vs.len() && vs[r] == p;
                assert(imp.resolves_to@[r]@ == p);
                assert forall|j: int|
                    0 <= j < es.len() && carries(Rule::Import, (#[trigger] es[j]).kind) implies taken(
                    store,
                    es[j].src,
                    v,
                    f,
                ) by {
                    crate::store::lemma_entering(store.edges@, imp.id);
                    assert(es.contains(es[j]));
                    let i = choose|i: int| 0 <= i < store.edges@.len() && store.edges@[i] == es[j];
                    assert(f.contains(store.imports@[k].resolves_to@[r]@));
                    assert(has_node(store, store.edges@[i].src, v, f));
                }
            }
        }
    }
}

/// What is affected is the least that holds the seeds, the source of every edge of the counting kinds into
/// an affected node, and the dependents of every import of an affected file.
pub proof fn law_affected_is_the_least_closure(store: Store, mode: AnalysisMode, hits: Seq<Node>)
    ensures
        is_closed(
            store,
            mode,
            hits,
            affected_nodes(store, mode, hits),
            affected_files(store, mode, hits),
        ),
        forall|v: Set<u64>, f: Set<Seq<char>>| #[trigger]
            is_closed(store, mode, hits, v, f) ==> affected_nodes(store, mode, hits).subset_of(v)
                && affected_files(store, mode, hits).subset_of(f),
{
    let nodes = affected_nodes(store, mode, hits);
    let files = affected_files(store, mode, hits);
    assert forall|i: int|
        0 <= i < store.edges@.len() && nodes.contains((#[trigger] store.edges@[i]).dst)
            && !store.unread_incoming@.contains(store.edges@[i].dst) && is_dependence(
            mode,
            store.edges@[i],
        ) implies has_node(store, store.edges@[i].src, nodes, files) by {
        let e = store.edges@[i];
        crate::store::lemma_entering(store.edges@, e.dst);
        let es = store.arriving(e.dst);
        assert(es.contains(e));
        let j = choose|j: int| 0 <= j < es.len() && es[j] == e;
        law_change_spreads_along_edges(store, mode, hits, e.dst, j);
    }
    if mode == AnalysisMode::TreeSitter {
        assert forall|k: int, r: int, i: int|
            0 <= k < store.imports@.len() && 0 <= r < store.imports@[k].resolves_to@.len() && 0 <= i
                < store.edges@.len() && files.contains(
                #[trigger] store.imports@[k].resolves_to@[r]@,
            ) && crate::blast::is_candidate(
                crate::blast::hints(store.imports@[k].resolves_to@[r]@),
                store.imports@[k].signature@,
            ) && (#[trigger] store.edges@[i]).dst == store.imports@[k].id
                && !store.unread_incoming@.contains(store.edges@[i].dst) && store.edges@[i].kind
                == EdgeKind::Depends implies has_node(store, store.edges@[i].src, nodes, files) by {
            let e = store.edges@[i];
            let imp = store.imports@[k];
            let p = imp.resolves_to@[r]@;
            assert(crate::text::views(imp.resolves_to@)[r] == p);
            crate::store::lemma_entering(store.edges@, e.dst);
            let es = store.arriving(e.dst);
            assert(es.contains(e));
            let j = choose|j: int| 0 <= j < es.len() && es[j] == e;
            law_change_spreads_through_imports(store, hits, p, k, j);
        }
    }
    assert forall|v: Set<u64>, f: Set<Seq<char>>| #[trigger]
        is_closed(store, mode, hits, v, f) implies nodes.subset_of(v) && files.subset_of(f) by {
        lemma_closed_is_spread(store, mode, hits, v, f);
    }
}

} // verus!
