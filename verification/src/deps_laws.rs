//! What an answer with dependencies shows.

use vstd::prelude::*;

use crate::callers::is_known;
use crate::deps::{
    depends_on, direct_deps, fresh, known, levels, prefixed, repeated, signatures, transitive_deps, wave,
};
use crate::lines::has_line;
use crate::store::{Edge, EdgeKind, Node, Store};

verus! {

// ---------------------------------------------------------------- the node that is asked for

/// The node is the one that an argument denotes: the first file among the hits, or the first hit where none
/// is a file.
pub open spec fn is_seed(hits: Seq<Node>, n: Node) -> bool {
    ||| exists|h: int|
        0 <= h < hits.len() && #[trigger] hits[h] == n && n.kind@ == "file"@ && forall|j: int|
            0 <= j < h ==> (#[trigger] hits[j]).kind@ != "file"@
    ||| hits.len() > 0 && hits[0] == n && forall|j: int|
        0 <= j < hits.len() ==> (#[trigger] hits[j]).kind@ != "file"@
}

proof fn lemma_first_file(hits: Seq<Node>)
    ensures
        crate::deps::first_file(hits) is None ==> forall|j: int|
            0 <= j < hits.len() ==> (#[trigger] hits[j]).kind@ != "file"@,
        forall|h: int|
            0 <= h < hits.len() && (#[trigger] hits[h]).kind@ == "file"@ && (forall|j: int|
                0 <= j < h ==> (#[trigger] hits[j]).kind@ != "file"@) ==> crate::deps::first_file(hits)
                == Some(hits[h]),
    decreases hits.len(),
{
    if hits.len() > 0 {
        let p = hits.drop_last();
        lemma_first_file(p);
        assert forall|j: int| 0 <= j < p.len() implies p[j] == hits[j] by {}
        if crate::deps::first_file(hits) is None {
            assert forall|j: int| 0 <= j < hits.len() implies (#[trigger] hits[j]).kind@ != "file"@ by {
                if j < p.len() {
                    assert(p[j].kind@ != "file"@);
                }
            }
        }
        assert forall|h: int|
            0 <= h < hits.len() && (#[trigger] hits[h]).kind@ == "file"@ && (forall|j: int|
                0 <= j < h ==> (#[trigger] hits[j]).kind@ != "file"@) implies crate::deps::first_file(
            hits,
        ) == Some(hits[h]) by {
            if h < p.len() {
                assert(p[h] == hits[h]);
                assert forall|j: int| 0 <= j < h implies (#[trigger] p[j]).kind@ != "file"@ by {
                    assert(p[j] == hits[j]);
                }
            } else {
                lemma_no_file(p);
            }
        }
    }
}

proof fn lemma_no_file(hits: Seq<Node>)
    requires
        forall|j: int| 0 <= j < hits.len() ==> (#[trigger] hits[j]).kind@ != "file"@,
    ensures
        crate::deps::first_file(hits) is None,
    decreases hits.len(),
{
    if hits.len() > 0 {
        let p = hits.drop_last();
        assert forall|j: int| 0 <= j < p.len() implies (#[trigger] p[j]).kind@ != "file"@ by {
            assert(p[j] == hits[j]);
        }
        lemma_no_file(p);
        assert(hits[hits.len() - 1].kind@ != "file"@);
    }
}

proof fn lemma_seed(hits: Seq<Node>, n: Node)
    requires
        is_seed(hits, n),
    ensures
        crate::deps::file_seed(Some(hits)) == Some(n),
{
    lemma_first_file(hits);
    if hits.len() > 0 && hits[0] == n && forall|j: int|
        0 <= j < hits.len() ==> (#[trigger] hits[j]).kind@ != "file"@ {
        lemma_no_file(hits);
    }
}

// ---------------------------------------------------------------- direct dependencies

/// The edge is a dependency of the node.
pub open spec fn is_dependency(e: Edge, id: u64) -> bool {
    e.src == id && e.kind == EdgeKind::Depends
}

proof fn lemma_depends(edges: Seq<Edge>, id: u64)
    ensures
        crate::deps::targets(crate::store::leaving(edges, id), EdgeKind::Depends).len()
            == edges.filter(|e: Edge| is_dependency(e, id)).len(),
        forall|i: int|
            0 <= i < edges.len() && is_dependency(#[trigger] edges[i], id) ==> crate::deps::targets(
                crate::store::leaving(edges, id),
                EdgeKind::Depends,
            ).contains(edges[i].dst),
        forall|t: u64| #[trigger]
            crate::deps::targets(crate::store::leaving(edges, id), EdgeKind::Depends).contains(t)
                ==> exists|i: int|
                0 <= i < edges.len() && is_dependency(#[trigger] edges[i], id) && edges[i].dst == t,
    decreases edges.len(),
{
    reveal(Seq::filter);
    if edges.len() > 0 {
        let p = edges.drop_last();
        let e = edges.last();
        lemma_depends(p, id);
        let before = crate::store::leaving(p, id);
        let rest = crate::deps::targets(before, EdgeKind::Depends);
        let all = crate::deps::targets(crate::store::leaving(edges, id), EdgeKind::Depends);
        if e.src == id {
            assert(before.push(e).drop_last() =~= before);
        }
        assert forall|i: int|
            0 <= i < edges.len() && is_dependency(#[trigger] edges[i], id) implies all.contains(
            edges[i].dst,
        ) by {
            crate::store::lemma_push_contains(rest, e.dst, edges[i].dst);
            if i < p.len() {
                assert(p[i] == edges[i]);
            }
        }
        assert forall|t: u64| #[trigger] all.contains(t) implies exists|i: int|
            0 <= i < edges.len() && is_dependency(#[trigger] edges[i], id) && edges[i].dst == t by {
            crate::store::lemma_push_contains(rest, e.dst, t);
            if rest.contains(t) {
                let i = choose|i: int|
                    0 <= i < p.len() && is_dependency(#[trigger] p[i], id) && p[i].dst == t;
                assert(edges[i] == p[i]);
            } else {
                assert(is_dependency(edges[edges.len() - 1], id));
            }
        }
    }
}

/// The text is the signature of one of the nodes.
spec fn is_signature(store: Store, ids: Seq<u64>, s: Seq<char>) -> bool {
    exists|i: int|
        0 <= i < ids.len() && (store.node(#[trigger] ids[i]) matches Some(n) && n.signature@ == s)
}

proof fn lemma_signatures(store: Store, ids: Seq<u64>)
    ensures
        forall|i: int|
            0 <= i < ids.len() ==> (store.node(#[trigger] ids[i]) matches Some(n) ==> signatures(
                store,
                ids,
            ).contains(n.signature@)),
        forall|k: int|
            0 <= k < signatures(store, ids).len() ==> is_signature(
                store,
                ids,
                #[trigger] signatures(store, ids)[k],
            ),
    decreases ids.len(),
{
    if ids.len() > 0 {
        let p = ids.drop_last();
        lemma_signatures(store, p);
        let all = signatures(store, ids);
        let rest = signatures(store, p);
        assert forall|i: int| 0 <= i < ids.len() implies (store.node(#[trigger] ids[i]) matches Some(n)
            ==> all.contains(n.signature@)) by {
            if let Some(n) = store.node(ids[i]) {
                if let Some(m) = store.node(ids.last()) {
                    crate::store::lemma_push_contains(rest, m.signature@, n.signature@);
                }
                if i < p.len() {
                    assert(p[i] == ids[i]);
                }
            }
        }
        assert forall|k: int| 0 <= k < all.len() implies is_signature(store, ids, #[trigger] all[k]) by {
            if k < rest.len() {
                assert(is_signature(store, p, rest[k]));
                assert(all[k] == rest[k]);
                let i = choose|i: int|
                    0 <= i < p.len() && (store.node(#[trigger] p[i]) matches Some(n) && n.signature@
                        == rest[k]);
                assert(ids[i] == p[i]);
            } else {
                assert(store.node(ids[ids.len() - 1]) is Some);
            }
        }
    }
}

/// Every dependency of a file has a line with its signature, and no line names anything else, as long as there are
/// no more than are listed at most.
pub proof fn law_every_direct_dependency_is_listed(
    store: Store,
    file: Seq<char>,
    hits: Seq<Node>,
    n: Node,
)
    requires
        store.name_hits(file) == Some(hits),
        is_seed(hits, n),
        store.edges@.filter(|e: Edge| is_dependency(e, n.id)).len() <= 25,
    ensures
        forall|i: int|
            0 <= i < store.edges@.len() && is_dependency(#[trigger] store.edges@[i], n.id) ==> (
            store.node(store.edges@[i].dst) matches Some(m) ==> has_line(
                direct_deps(store, file),
                m.signature@,
            )),
        exists|ls: Seq<Seq<char>>|
            direct_deps(store, file) == #[trigger] crate::text::join(ls, "\n"@) && forall|k: int|
                0 <= k < ls.len() ==> exists|i: int|
                    0 <= i < store.edges@.len() && is_dependency(#[trigger] store.edges@[i], n.id) && (
                    store.node(store.edges@[i].dst) matches Some(m) && m.signature@
                        == #[trigger] ls[k]),
{
    lemma_seed(hits, n);
    lemma_depends(store.edges@, n.id);
    let all = depends_on(store, n.id);
    lemma_signatures(store, all);
    let ls = signatures(store, all);
    assert(direct_deps(store, file) == crate::text::join(ls, "\n"@));
    assert forall|i: int|
        0 <= i < store.edges@.len() && is_dependency(#[trigger] store.edges@[i], n.id) implies (
    store.node(store.edges@[i].dst) matches Some(m) ==> has_line(direct_deps(store, file), m.signature@)) by {
        if let Some(m) = store.node(store.edges@[i].dst) {
            assert(all.contains(store.edges@[i].dst));
            let j = choose|j: int| 0 <= j < all.len() && all[j] == store.edges@[i].dst;
            assert(store.node(all[j]) == Some(m));
            assert(ls.contains(m.signature@));
            let k = choose|k: int| 0 <= k < ls.len() && ls[k] == m.signature@;
            crate::lines::lemma_join_has_line(ls, k);
        }
    }
    assert forall|k: int| 0 <= k < ls.len() implies exists|i: int|
        0 <= i < store.edges@.len() && is_dependency(#[trigger] store.edges@[i], n.id) && (store.node(
            store.edges@[i].dst,
        ) matches Some(m) && m.signature@ == #[trigger] ls[k]) by {
        let j = choose|j: int|
            0 <= j < all.len() && (store.node(#[trigger] all[j]) matches Some(m) && m.signature@ == ls[k]);
        assert(all.contains(all[j]));
        let i = choose|i: int|
            0 <= i < store.edges@.len() && is_dependency(#[trigger] store.edges@[i], n.id)
                && store.edges@[i].dst == all[j];
    }
}

/// Where more are there than are listed, the first twenty-five stand, and a line tells how many there are.
pub proof fn law_long_dependencies_are_counted(store: Store, file: Seq<char>, hits: Seq<Node>, n: Node)
    requires
        store.name_hits(file) == Some(hits),
        is_seed(hits, n),
        store.edges@.filter(|e: Edge| is_dependency(e, n.id)).len() > 25,
    ensures
        has_line(
            direct_deps(store, file),
            "[showing 25 of "@ + crate::text::dec(
                store.edges@.filter(|e: Edge| is_dependency(e, n.id)).len(),
            )
                + ", use get_context for ranked coverage or get_dependencies with transitive=true for the full tree]"@,
        ),
        forall|i: int|
            0 <= i < 25 ==> (store.node(#[trigger] depends_on(store, n.id)[i]) matches Some(m)
                ==> has_line(direct_deps(store, file), m.signature@)),
{
    lemma_seed(hits, n);
    lemma_depends(store.edges@, n.id);
    let all = depends_on(store, n.id);
    let first = all.take(25);
    lemma_signatures(store, first);
    let sigs = signatures(store, first);
    let note = crate::deps::deps_cut_note(all.len());
    let ls = sigs.push(note);
    assert(direct_deps(store, file) == crate::text::join(ls, "\n"@));
    assert(ls[sigs.len() as int] == note);
    crate::lines::lemma_join_has_line(ls, sigs.len() as int);
    assert forall|i: int| 0 <= i < 25 implies (store.node(#[trigger] all[i]) matches Some(m)
        ==> has_line(direct_deps(store, file), m.signature@)) by {
        if let Some(m) = store.node(all[i]) {
            assert(store.node(first[i]) == Some(m));
            let k = choose|k: int| 0 <= k < sigs.len() && sigs[k] == m.signature@;
            assert(ls[k] == sigs[k]);
            crate::lines::lemma_join_has_line(ls, k);
        }
    }
}

// ---------------------------------------------------------------- transitive dependencies

/// The node is one that dependencies are looked for behind: the one that was asked for, or one of the graph.
pub open spec fn is_behind(store: Store, id: u64, x: u64) -> bool {
    x == id || is_known(store, x)
}

/// What dependencies lead to from a node in at most `k` steps.
pub open spec fn within(store: Store, id: u64, k: nat) -> Set<u64>
    decreases k,
{
    if k == 0 {
        set![id]
    } else {
        let nearer = within(store, id, (k - 1) as nat);
        nearer.union(
            Set::new(
                |t: u64|
                    exists|i: int|
                        0 <= i < store.edges@.len() && (#[trigger] store.edges@[i]).kind
                            == EdgeKind::Depends && store.edges@[i].dst == t && nearer.contains(
                            store.edges@[i].src,
                        ) && is_behind(store, id, store.edges@[i].src),
            ),
        )
    }
}

proof fn lemma_within_grows(store: Store, id: u64, a: nat, b: nat)
    requires
        a <= b,
    ensures
        within(store, id, a).subset_of(within(store, id, b)),
    decreases b,
{
    if a < b {
        lemma_within_grows(store, id, a, (b - 1) as nat);
    }
}

proof fn lemma_wave(store: Store, front: Seq<u64>, t: u64)
    ensures
        wave(store, front).contains(t) <==> exists|i: int|
            0 <= i < store.edges@.len() && (#[trigger] store.edges@[i]).kind == EdgeKind::Depends
                && store.edges@[i].dst == t && front.contains(store.edges@[i].src),
    decreases front.len(),
{
    if front.len() > 0 {
        let p = front.drop_last();
        let last = front.last();
        lemma_wave(store, p, t);
        lemma_depends(store.edges@, last);
        let own = depends_on(store, last);
        crate::graph_laws::lemma_concat_contains(wave(store, p), own, t);
        assert(front =~= p.push(last));
        if wave(store, p).contains(t) {
            let i = choose|i: int|
                0 <= i < store.edges@.len() && (#[trigger] store.edges@[i]).kind == EdgeKind::Depends
                    && store.edges@[i].dst == t && p.contains(store.edges@[i].src);
            crate::store::lemma_push_contains(p, last, store.edges@[i].src);
        }
        if own.contains(t) {
            let i = choose|i: int|
                0 <= i < store.edges@.len() && is_dependency(#[trigger] store.edges@[i], last)
                    && store.edges@[i].dst == t;
            crate::store::lemma_push_contains(p, last, store.edges@[i].src);
        }
        if exists|i: int|
            0 <= i < store.edges@.len() && (#[trigger] store.edges@[i]).kind == EdgeKind::Depends
                && store.edges@[i].dst == t && front.contains(store.edges@[i].src) {
            let i = choose|i: int|
                0 <= i < store.edges@.len() && (#[trigger] store.edges@[i]).kind == EdgeKind::Depends
                    && store.edges@[i].dst == t && front.contains(store.edges@[i].src);
            crate::store::lemma_push_contains(p, last, store.edges@[i].src);
            if store.edges@[i].src == last {
                assert(is_dependency(store.edges@[i], last));
            }
        }
    }
}

proof fn lemma_fresh(ids: Seq<u64>, seen: Set<u64>, t: u64)
    ensures
        fresh(ids, seen).contains(t) <==> ids.contains(t) && !seen.contains(t),
    decreases ids.len(),
{
    if ids.len() > 0 {
        let p = ids.drop_last();
        lemma_fresh(p, seen, t);
        assert(ids =~= p.push(ids.last()));
        crate::store::lemma_push_contains(p, ids.last(), t);
        crate::store::lemma_push_contains(fresh(p, seen), ids.last(), t);
    }
}

proof fn lemma_known(store: Store, ids: Seq<u64>, t: u64)
    ensures
        known(store, ids).contains(t) <==> ids.contains(t) && is_known(store, t),
    decreases ids.len(),
{
    if ids.len() > 0 {
        let p = ids.drop_last();
        lemma_known(store, p, t);
        assert(ids =~= p.push(ids.last()));
        crate::store::lemma_push_contains(p, ids.last(), t);
        crate::store::lemma_push_contains(known(store, p), ids.last(), t);
        lemma_node_known(store, ids.last());
    }
}

proof fn lemma_node_known(store: Store, t: u64)
    ensures
        store.node(t) is Some <==> is_known(store, t),
{
    crate::store::lemma_find_node(store.nodes@, t);
    if let Some(n) = store.node(t) {
        let j = choose|j: int| 0 <= j < store.nodes@.len() && store.nodes@[j] == n;
        assert(store.nodes@[j].id == t);
    }
}

/// The front and what was seen when the search stands at a level.
spec fn at_level(store: Store, id: u64, front: Seq<u64>, seen: Set<u64>, hop: nat) -> bool {
    &&& seen == within(store, id, hop)
    &&& forall|t: u64| #[trigger] front.contains(t) ==> seen.contains(t) && is_behind(store, id, t)
    &&& forall|i: int|
        0 <= i < store.edges@.len() && (#[trigger] store.edges@[i]).kind == EdgeKind::Depends
            && seen.contains(store.edges@[i].src) && is_behind(store, id, store.edges@[i].src)
            && !front.contains(store.edges@[i].src) ==> seen.contains(store.edges@[i].dst)
}

proof fn lemma_next_level(store: Store, id: u64, front: Seq<u64>, seen: Set<u64>, hop: nat)
    requires
        at_level(store, id, front, seen, hop),
    ensures
        ({
            let next = fresh(wave(store, front), seen);
            &&& at_level(store, id, known(store, next), seen.union(next.to_set()), hop + 1)
            &&& forall|t: u64| #[trigger]
                next.contains(t) <==> within(store, id, hop + 1).contains(t) && !seen.contains(t)
        }),
{
    let next = fresh(wave(store, front), seen);
    let all = seen.union(next.to_set());
    let front2 = known(store, next);
    assert forall|t: u64| #[trigger] next.contains(t) <==> within(store, id, hop + 1).contains(t)
        && !seen.contains(t) by {
        lemma_fresh(wave(store, front), seen, t);
        lemma_wave(store, front, t);
        if within(store, id, hop + 1).contains(t) && !seen.contains(t) {
            let i = choose|i: int|
                0 <= i < store.edges@.len() && (#[trigger] store.edges@[i]).kind == EdgeKind::Depends
                    && store.edges@[i].dst == t && seen.contains(store.edges@[i].src) && is_behind(
                    store,
                    id,
                    store.edges@[i].src,
                );
            assert(front.contains(store.edges@[i].src));
        }
    }
    assert forall|t: u64| all.contains(t) <==> within(store, id, hop + 1).contains(t) by {
        assert(next.contains(t) <==> within(store, id, hop + 1).contains(t) && !seen.contains(t));
    }
    assert(all =~= within(store, id, hop + 1));
    assert forall|t: u64| #[trigger] front2.contains(t) implies all.contains(t) && is_behind(
        store,
        id,
        t,
    ) by {
        lemma_known(store, next, t);
    }
    assert forall|i: int|
        0 <= i < store.edges@.len() && (#[trigger] store.edges@[i]).kind == EdgeKind::Depends
            && all.contains(store.edges@[i].src) && is_behind(store, id, store.edges@[i].src)
            && !front2.contains(store.edges@[i].src) implies all.contains(store.edges@[i].dst) by {
        let s = store.edges@[i].src;
        lemma_known(store, next, s);
        lemma_within_grows(store, id, 0, hop);
        if !seen.contains(s) {
            assert(next.contains(s));
            assert(within(store, id, 0).contains(id));
            assert(s != id);
        }
        assert(seen.contains(s));
        assert(within(store, id, hop + 1).contains(store.edges@[i].dst));
    }
}

proof fn lemma_stays(store: Store, id: u64, hop: nat, k: nat)
    requires
        within(store, id, hop + 1) == within(store, id, hop),
        hop <= k,
    ensures
        within(store, id, k) == within(store, id, hop),
    decreases k,
{
    if hop < k {
        lemma_stays(store, id, hop, (k - 1) as nat);
        if k > hop + 1 {
            lemma_stays(store, id, hop, (k - 2) as nat);
            lemma_stays(store, id, hop, (k - 1) as nat);
            assert(within(store, id, (k - 1) as nat) == within(store, id, hop));
            assert(within(store, id, k) =~= within(store, id, hop + 1)) by {
                assert forall|t: u64| within(store, id, k).contains(t) <==> within(
                    store,
                    id,
                    hop + 1,
                ).contains(t) by {}
            }
        }
    }
}

proof fn lemma_level_lines(
    store: Store,
    id: u64,
    front: Seq<u64>,
    seen: Set<u64>,
    hop: nat,
    depth: nat,
    h: nat,
    x: u64,
    n: Node,
)
    requires
        at_level(store, id, front, seen, hop),
        hop <= h < depth,
        within(store, id, h + 1).contains(x),
        !within(store, id, h).contains(x),
        store.node(x) == Some(n),
    ensures
        levels(store, front, seen, hop, depth).contains(repeated("  ↳ "@, h) + n.signature@),
    decreases depth - hop,
{
    let next = fresh(wave(store, front), seen);
    lemma_next_level(store, id, front, seen, hop);
    if front.len() == 0 {
        assert forall|t: u64| within(store, id, hop + 1).contains(t) implies within(
            store,
            id,
            hop,
        ).contains(t) by {
            lemma_wave(store, front, t);
            lemma_fresh(wave(store, front), seen, t);
        }
        lemma_within_grows(store, id, hop, hop + 1);
        assert(within(store, id, hop + 1) =~= within(store, id, hop));
        lemma_stays(store, id, hop, h);
        lemma_stays(store, id, hop, h + 1);
    } else {
        let own = prefixed(repeated("  ↳ "@, hop), signatures(store, next));
        let rest = levels(
            store,
            known(store, next),
            seen.union(next.to_set()),
            hop + 1,
            depth,
        );
        let l = repeated("  ↳ "@, h) + n.signature@;
        crate::graph_laws::lemma_concat_contains(own, rest, l);
        if h == hop {
            assert(next.contains(x));
            let i = choose|i: int| 0 <= i < next.len() && next[i] == x;
            lemma_signatures(store, next);
            assert(store.node(next[i]) == Some(n));
            let k = choose|k: int|
                0 <= k < signatures(store, next).len() && signatures(store, next)[k] == n.signature@;
            assert(own[k] == l);
        } else {
            lemma_level_lines(
                store,
                id,
                known(store, next),
                seen.union(next.to_set()),
                hop + 1,
                depth,
                h,
                x,
                n,
            );
        }
    }
}

proof fn lemma_line_level(
    store: Store,
    id: u64,
    front: Seq<u64>,
    seen: Set<u64>,
    hop: nat,
    depth: nat,
    k: int,
)
    requires
        at_level(store, id, front, seen, hop),
        0 <= k < levels(store, front, seen, hop, depth).len(),
    ensures
        exists|h: nat, x: u64| #[trigger]
            is_at(store, id, h, x) && hop <= h < depth && (store.node(x) matches Some(n) && levels(
                store,
                front,
                seen,
                hop,
                depth,
            )[k] == repeated("  ↳ "@, h) + n.signature@),
    decreases depth - hop,
{
    let next = fresh(wave(store, front), seen);
    lemma_next_level(store, id, front, seen, hop);
    let own = prefixed(repeated("  ↳ "@, hop), signatures(store, next));
    if k < own.len() {
        lemma_signatures(store, next);
        let i = choose|i: int|
            0 <= i < next.len() && (store.node(#[trigger] next[i]) matches Some(n) && n.signature@
                == signatures(store, next)[k]);
        assert(next.contains(next[i]));
        assert(is_at(store, id, hop, next[i]));
    } else {
        lemma_line_level(
            store,
            id,
            known(store, next),
            seen.union(next.to_set()),
            hop + 1,
            depth,
            k - own.len(),
        );
        let (h, x) = choose|h: nat, x: u64| #[trigger]
            is_at(store, id, h, x) && hop + 1 <= h < depth && (store.node(x) matches Some(n) && levels(
                store,
                known(store, next),
                seen.union(next.to_set()),
                hop + 1,
                depth,
            )[k - own.len()] == repeated("  ↳ "@, h) + n.signature@);
        assert(is_at(store, id, h, x));
    }
}

/// The shortest way of dependencies to the node has one step more than `h`.
pub open spec fn is_at(store: Store, id: u64, h: nat, x: u64) -> bool {
    within(store, id, h + 1).contains(x) && !within(store, id, h).contains(x)
}

/// Everything that dependencies lead to in at most `depth` steps has a line with its signature, indented by its
/// distance; and no line names anything else.
pub proof fn law_every_transitive_dependency_is_listed(
    store: Store,
    file: Seq<char>,
    depth: nat,
    hits: Seq<Node>,
    n: Node,
)
    requires
        store.name_hits(file) == Some(hits),
        is_seed(hits, n),
    ensures
        forall|h: nat, x: u64| #[trigger]
            is_at(store, n.id, h, x) && h < depth ==> (store.node(x) matches Some(m) ==> has_line(
                transitive_deps(store, file, depth),
                repeated("  ↳ "@, h) + m.signature@,
            )),
        exists|ls: Seq<Seq<char>>|
            transitive_deps(store, file, depth) == #[trigger] crate::text::join(ls, "\n"@) && forall|
                k: int,
            |
                0 <= k < ls.len() ==> exists|h: nat, x: u64| #[trigger]
                    is_at(store, n.id, h, x) && h < depth && (store.node(x) matches Some(m)
                        && #[trigger] ls[k] == repeated("  ↳ "@, h) + m.signature@),
{
    lemma_seed(hits, n);
    let front = seq![n.id];
    let seen = set![n.id];
    let ls = levels(store, front, seen, 0, depth);
    assert(at_level(store, n.id, front, seen, 0)) by {
        assert forall|t: u64| #[trigger] front.contains(t) implies seen.contains(t) && is_behind(
            store,
            n.id,
            t,
        ) by {
            let i = choose|i: int| 0 <= i < front.len() && front[i] == t;
        }
        assert(front[0] == n.id);
        assert(front.contains(n.id));
    }
    assert(transitive_deps(store, file, depth) == crate::text::join(ls, "\n"@));
    assert forall|h: nat, x: u64| #[trigger] is_at(store, n.id, h, x) && h < depth implies (store.node(
        x,
    ) matches Some(m) ==> has_line(
        transitive_deps(store, file, depth),
        repeated("  ↳ "@, h) + m.signature@,
    )) by {
        if let Some(m) = store.node(x) {
            lemma_level_lines(store, n.id, front, seen, 0, depth, h, x, m);
            let l = repeated("  ↳ "@, h) + m.signature@;
            let k = choose|k: int| 0 <= k < ls.len() && ls[k] == l;
            crate::lines::lemma_join_has_line(ls, k);
        }
    }
    assert forall|k: int| 0 <= k < ls.len() implies exists|h: nat, x: u64| #[trigger]
        is_at(store, n.id, h, x) && h < depth && (store.node(x) matches Some(m) && #[trigger] ls[k]
            == repeated("  ↳ "@, h) + m.signature@) by {
        lemma_line_level(store, n.id, front, seen, 0, depth, k);
    }
}

} // verus!
