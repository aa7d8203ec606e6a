//! What a drawing says of the graph.

use vstd::prelude::*;

use crate::graph::{
    after, anchored_edges, is_done, is_skipped, json_id, links, reach, start, take_link, take_links,
    visit, walked, EdgeView, Link, NodeView, Request, WalkView,
};
use crate::store::{Edge, EdgeKind, Node, Store};

verus! {

// ---------------------------------------------------------------- edges of the graph

/// The graph has an edge of that kind from one node to the other.
pub open spec fn has_edge(store: Store, src: u64, dst: u64, kind: EdgeKind) -> bool {
    exists|i: int|
        0 <= i < store.edges@.len() && (#[trigger] store.edges@[i]).src == src && store.edges@[i].dst
            == dst && store.edges@[i].kind == kind
}

proof fn lemma_targets(edges: Seq<Edge>, id: u64, kind: EdgeKind, t: u64)
    ensures
        crate::deps::targets(crate::store::leaving(edges, id), kind).contains(t) <==> exists|i: int|
            0 <= i < edges.len() && (#[trigger] edges[i]).src == id && edges[i].dst == t
                && edges[i].kind == kind,
    decreases edges.len(),
{
    let all = crate::deps::targets(crate::store::leaving(edges, id), kind);
    if edges.len() > 0 {
        let p = edges.drop_last();
        let e = edges.last();
        lemma_targets(p, id, kind, t);
        let before = crate::store::leaving(p, id);
        let rest = crate::deps::targets(before, kind);
        if e.src == id {
            assert(before.push(e).drop_last() =~= before);
            if e.kind == kind {
                crate::store::lemma_push_contains(rest, e.dst, t);
            }
        }
        if rest.contains(t) {
            let i = choose|i: int|
                0 <= i < p.len() && (#[trigger] p[i]).src == id && p[i].dst == t && p[i].kind == kind;
            assert(edges[i] == p[i]);
        }
        if all.contains(t) && !rest.contains(t) {
            assert(edges[edges.len() - 1].dst == t);
        }
        if exists|i: int|
            0 <= i < edges.len() && (#[trigger] edges[i]).src == id && edges[i].dst == t
                && edges[i].kind == kind {
            let i = choose|i: int|
                0 <= i < edges.len() && (#[trigger] edges[i]).src == id && edges[i].dst == t
                    && edges[i].kind == kind;
            if i < p.len() {
                assert(p[i] == edges[i]);
            }
        }
    }
}

proof fn lemma_sources(edges: Seq<Edge>, id: u64, kind: EdgeKind, s: u64)
    ensures
        crate::graph::sources(crate::store::entering(edges, id), kind).contains(s) <==> exists|
            i: int,
        |
            0 <= i < edges.len() && (#[trigger] edges[i]).dst == id && edges[i].src == s
                && edges[i].kind == kind,
    decreases edges.len(),
{
    let all = crate::graph::sources(crate::store::entering(edges, id), kind);
    if edges.len() > 0 {
        let p = edges.drop_last();
        let e = edges.last();
        lemma_sources(p, id, kind, s);
        let before = crate::store::entering(p, id);
        let rest = crate::graph::sources(before, kind);
        if e.dst == id {
            assert(before.push(e).drop_last() =~= before);
            if e.kind == kind {
                crate::store::lemma_push_contains(rest, e.src, s);
            }
        }
        if rest.contains(s) {
            let i = choose|i: int|
                0 <= i < p.len() && (#[trigger] p[i]).dst == id && p[i].src == s && p[i].kind == kind;
            assert(edges[i] == p[i]);
        }
        if all.contains(s) && !rest.contains(s) {
            assert(edges[edges.len() - 1].src == s);
        }
        if exists|i: int|
            0 <= i < edges.len() && (#[trigger] edges[i]).dst == id && edges[i].src == s
                && edges[i].kind == kind {
            let i = choose|i: int|
                0 <= i < edges.len() && (#[trigger] edges[i]).dst == id && edges[i].src == s
                    && edges[i].kind == kind;
            if i < p.len() {
                assert(p[i] == edges[i]);
            }
        }
    }
}

proof fn lemma_through(store: Store, imports: Seq<u64>, t: u64)
    ensures
        crate::graph::through(store, imports).contains(t) <==> exists|k: int|
            0 <= k < imports.len() && has_edge(
                store,
                #[trigger] imports[k],
                t,
                EdgeKind::ResolvesTo,
            ),
    decreases imports.len(),
{
    if imports.len() > 0 {
        let p = imports.drop_last();
        lemma_through(store, p, t);
        let rest = crate::graph::through(store, p);
        let own = crate::deps::targets(
            crate::store::leaving(store.edges@, imports.last()),
            EdgeKind::ResolvesTo,
        );
        lemma_targets(store.edges@, imports.last(), EdgeKind::ResolvesTo, t);
        lemma_concat_contains(rest, own, t);
        if rest.contains(t) {
            let k = choose|k: int|
                0 <= k < p.len() && has_edge(store, #[trigger] p[k], t, EdgeKind::ResolvesTo);
            assert(imports[k] == p[k]);
        }
        if own.contains(t) {
            assert(has_edge(store, imports[imports.len() - 1], t, EdgeKind::ResolvesTo));
        }
        if exists|k: int|
            0 <= k < imports.len() && has_edge(
                store,
                #[trigger] imports[k],
                t,
                EdgeKind::ResolvesTo,
            ) {
            let k = choose|k: int|
                0 <= k < imports.len() && has_edge(
                    store,
                    #[trigger] imports[k],
                    t,
                    EdgeKind::ResolvesTo,
                );
            if k < p.len() {
                assert(p[k] == imports[k]);
            }
        }
    }
}

/// The edge can be read from its target.
pub open spec fn has_read_edge(store: Store, src: u64, dst: u64, kind: EdgeKind) -> bool {
    has_edge(store, src, dst, kind) && !store.unread_incoming@.contains(dst)
}

proof fn lemma_arriving_sources(store: Store, id: u64, kind: EdgeKind, s: u64)
    ensures
        crate::graph::sources(store.arriving(id), kind).contains(s) <==> has_read_edge(
            store,
            s,
            id,
            kind,
        ),
{
    lemma_sources(store.edges@, id, kind, s);
}

proof fn lemma_importers(store: Store, imports: Seq<u64>, s: u64)
    ensures
        crate::graph::importers(store, imports).contains(s) <==> exists|k: int|
            0 <= k < imports.len() && has_read_edge(
                store,
                s,
                #[trigger] imports[k],
                EdgeKind::Depends,
            ),
    decreases imports.len(),
{
    if imports.len() > 0 {
        let p = imports.drop_last();
        lemma_importers(store, p, s);
        let rest = crate::graph::importers(store, p);
        let own = crate::graph::sources(store.arriving(imports.last()), EdgeKind::Depends);
        lemma_arriving_sources(store, imports.last(), EdgeKind::Depends, s);
        lemma_concat_contains(rest, own, s);
        if rest.contains(s) {
            let k = choose|k: int|
                0 <= k < p.len() && has_read_edge(store, s, #[trigger] p[k], EdgeKind::Depends);
            assert(imports[k] == p[k]);
        }
        if own.contains(s) {
            assert(has_read_edge(store, s, imports[imports.len() - 1], EdgeKind::Depends));
        }
        if exists|k: int|
            0 <= k < imports.len() && has_read_edge(
                store,
                s,
                #[trigger] imports[k],
                EdgeKind::Depends,
            ) {
            let k = choose|k: int|
                0 <= k < imports.len() && has_read_edge(
                    store,
                    s,
                    #[trigger] imports[k],
                    EdgeKind::Depends,
                );
            if k < p.len() {
                assert(p[k] == imports[k]);
            }
        }
    }
}

pub proof fn lemma_concat_contains<A>(a: Seq<A>, b: Seq<A>, x: A)
    ensures
        (a + b).contains(x) <==> a.contains(x) || b.contains(x),
{
    let c = a + b;
    if a.contains(x) {
        let i = choose|i: int| 0 <= i < a.len() && a[i] == x;
        assert(c[i] == x);
    }
    if b.contains(x) {
        let i = choose|i: int| 0 <= i < b.len() && b[i] == x;
        assert(c[a.len() + i] == x);
    }
    if c.contains(x) {
        let i = choose|i: int| 0 <= i < c.len() && c[i] == x;
        if i < a.len() {
            assert(a[i] == x);
        } else {
            assert(b[i - a.len()] == x);
        }
    }
}

// ---------------------------------------------------------------- true links

/// The recorded steps of a walk follow the edges of the graph: against them those of a walk to callers.
pub open spec fn steps_agree(store: Store) -> bool {
    forall|i: int, j: int|
        0 <= i < store.steps@.len() && 0 <= j < store.steps@[i].steps@.len() ==> {
            let s = store.steps@[i];
            let t = #[trigger] store.steps@[i].steps@[j];
            if s.callers {
                has_edge(store, t.next, s.from, t.kind)
            } else {
                has_edge(store, s.from, t.next, t.kind)
            }
        }
}

/// The graph leads from the one node to the other: by an edge of that kind, or between files by an
/// import that the first depends on and that resolves to the second.
pub open spec fn leads(store: Store, q: Request, src: u64, dst: u64, kind: EdgeKind) -> bool {
    if q.kind == "file"@ {
        kind == EdgeKind::Depends && exists|m: u64|
            has_edge(store, src, m, EdgeKind::Depends) && #[trigger] has_edge(
                store,
                m,
                dst,
                EdgeKind::ResolvesTo,
            )
    } else {
        has_edge(store, src, dst, kind)
    }
}

/// The edge of a drawing stands for one of the graph between the two nodes.
pub open spec fn draws(store: Store, ev: EdgeView, src: u64, dst: u64, kind: EdgeKind) -> bool {
    &&& store.node(src) matches Some(a) && ev.source == json_id(a)
    &&& store.node(dst) matches Some(b) && ev.target == json_id(b)
    &&& ev.kind == crate::graph::kind_name(kind)
}

proof fn lemma_steps_of(
    v: Seq<crate::store::Steps>,
    from: u64,
    callers: bool,
    first: bool,
    j: int,
)
    requires
        0 <= j < crate::graph::steps_of(v, from, callers, first).len(),
    ensures
        exists|i: int|
            0 <= i < v.len() && (#[trigger] v[i]).from == from && v[i].callers == callers
                && v[i].first == first && 0 <= j < v[i].steps@.len() && v[i].steps@[j]
                == crate::graph::steps_of(v, from, callers, first)[j],
    decreases v.len(),
{
    if v.len() > 0 {
        let l = v.last();
        if l.from == from && l.callers == callers && l.first == first {
            assert(v[v.len() - 1].from == from);
        } else {
            let p = v.drop_last();
            lemma_steps_of(p, from, callers, first, j);
            let i = choose|i: int|
                0 <= i < p.len() && (#[trigger] p[i]).from == from && p[i].callers == callers
                    && p[i].first == first && 0 <= j < p[i].steps@.len() && p[i].steps@[j]
                    == crate::graph::steps_of(p, from, callers, first)[j];
            assert(v[i] == p[i]);
        }
    }
}

proof fn lemma_out_links(store: Store, id: u64, ids: Seq<u64>)
    ensures
        forall|i: int|
            0 <= i < crate::graph::out_links(store, id, ids).len() ==> {
                let l = #[trigger] crate::graph::out_links(store, id, ids)[i];
                l.source == id && ids.contains(l.target) && l.kind == EdgeKind::Depends && l.next
                    == l.target && l.expand && crate::graph::is_file(store, l.target)
            },
        forall|t: u64|
            #![trigger ids.contains(t)]
            ids.contains(t) && crate::graph::is_file(store, t) ==> crate::graph::out_links(
                store,
                id,
                ids,
            ).contains(
                Link { source: id, target: t, kind: EdgeKind::Depends, next: t, expand: true },
            ),
    decreases ids.len(),
{
    if ids.len() > 0 {
        let p = ids.drop_last();
        lemma_out_links(store, id, p);
        let rest = crate::graph::out_links(store, id, p);
        let all = crate::graph::out_links(store, id, ids);
        let last = Link {
            source: id,
            target: ids.last(),
            kind: EdgeKind::Depends,
            next: ids.last(),
            expand: true,
        };
        assert(ids =~= p.push(ids.last()));
        assert forall|i: int| 0 <= i < all.len() implies {
            let l = #[trigger] all[i];
            l.source == id && ids.contains(l.target) && l.kind == EdgeKind::Depends && l.next
                == l.target && l.expand && crate::graph::is_file(store, l.target)
        } by {
            if i < rest.len() {
                assert(all[i] == rest[i]);
                crate::store::lemma_push_contains(p, ids.last(), all[i].target);
            } else {
                assert(ids[ids.len() - 1] == all[i].target);
            }
        }
        assert forall|t: u64|
            #![trigger ids.contains(t)]
            ids.contains(t) && crate::graph::is_file(store, t) implies all.contains(
            Link { source: id, target: t, kind: EdgeKind::Depends, next: t, expand: true },
        ) by {
            let x = Link { source: id, target: t, kind: EdgeKind::Depends, next: t, expand: true };
            crate::store::lemma_push_contains(p, ids.last(), t);
            if crate::graph::is_file(store, ids.last()) {
                crate::store::lemma_push_contains(rest, last, x);
            }
            if p.contains(t) {
                assert(rest.contains(x));
            }
        }
    }
}

proof fn lemma_in_links(store: Store, id: u64, ids: Seq<u64>)
    ensures
        forall|i: int|
            0 <= i < crate::graph::in_links(store, id, ids).len() ==> {
                let l = #[trigger] crate::graph::in_links(store, id, ids)[i];
                l.target == id && ids.contains(l.source) && l.kind == EdgeKind::Depends && l.next
                    == l.source && l.expand && crate::graph::is_file(store, l.source)
            },
        forall|t: u64|
            #![trigger ids.contains(t)]
            ids.contains(t) && crate::graph::is_file(store, t) ==> crate::graph::in_links(
                store,
                id,
                ids,
            ).contains(
                Link { source: t, target: id, kind: EdgeKind::Depends, next: t, expand: true },
            ),
    decreases ids.len(),
{
    if ids.len() > 0 {
        let p = ids.drop_last();
        lemma_in_links(store, id, p);
        let rest = crate::graph::in_links(store, id, p);
        let all = crate::graph::in_links(store, id, ids);
        let last = Link {
            source: ids.last(),
            target: id,
            kind: EdgeKind::Depends,
            next: ids.last(),
            expand: true,
        };
        assert(ids =~= p.push(ids.last()));
        assert forall|i: int| 0 <= i < all.len() implies {
            let l = #[trigger] all[i];
            l.target == id && ids.contains(l.source) && l.kind == EdgeKind::Depends && l.next
                == l.source && l.expand && crate::graph::is_file(store, l.source)
        } by {
            if i < rest.len() {
                assert(all[i] == rest[i]);
                crate::store::lemma_push_contains(p, ids.last(), all[i].source);
            } else {
                assert(ids[ids.len() - 1] == all[i].source);
            }
        }
        assert forall|t: u64|
            #![trigger ids.contains(t)]
            ids.contains(t) && crate::graph::is_file(store, t) implies all.contains(
            Link { source: t, target: id, kind: EdgeKind::Depends, next: t, expand: true },
        ) by {
            let x = Link { source: t, target: id, kind: EdgeKind::Depends, next: t, expand: true };
            crate::store::lemma_push_contains(p, ids.last(), t);
            if crate::graph::is_file(store, ids.last()) {
                crate::store::lemma_push_contains(rest, last, x);
            }
            if p.contains(t) {
                assert(rest.contains(x));
            }
        }
    }
}

proof fn lemma_outward_is_true(store: Store, q: Request, id: u64, hop: nat, i: int)
    requires
        steps_agree(store),
        0 <= i < crate::graph::outward(store, q, id, hop).len(),
    ensures
        ({
            let l = crate::graph::outward(store, q, id, hop)[i];
            leads(store, q, l.source, l.target, l.kind) && l.source == id && l.next == l.target
        }),
{
    let l = crate::graph::outward(store, q, id, hop)[i];
    if q.kind == "file"@ {
        let imports = crate::deps::targets(
            crate::store::leaving(store.edges@, id),
            EdgeKind::Depends,
        );
        lemma_out_links(store, id, crate::graph::through(store, imports));
        lemma_through(store, imports, l.target);
        let k = choose|k: int|
            0 <= k < imports.len() && has_edge(
                store,
                #[trigger] imports[k],
                l.target,
                EdgeKind::ResolvesTo,
            );
        lemma_targets(store.edges@, id, EdgeKind::Depends, imports[k]);
        assert(imports.contains(imports[k]));
        assert(has_edge(store, id, imports[k], EdgeKind::Depends));
    } else {
        lemma_steps_of(store.steps@, id, false, hop == 0, i);
    }
}

proof fn lemma_inward_is_true(store: Store, q: Request, id: u64, hop: nat, i: int)
    requires
        steps_agree(store),
        0 <= i < crate::graph::inward(store, q, id, hop).len(),
    ensures
        ({
            let l = crate::graph::inward(store, q, id, hop)[i];
            leads(store, q, l.source, l.target, l.kind) && l.target == id && l.next == l.source
        }),
{
    let l = crate::graph::inward(store, q, id, hop)[i];
    if q.kind == "file"@ {
        let imports = crate::graph::sources(store.arriving(id), EdgeKind::ResolvesTo);
        lemma_in_links(store, id, crate::graph::importers(store, imports));
        lemma_importers(store, imports, l.source);
        let k = choose|k: int|
            0 <= k < imports.len() && has_read_edge(
                store,
                l.source,
                #[trigger] imports[k],
                EdgeKind::Depends,
            );
        lemma_arriving_sources(store, id, EdgeKind::ResolvesTo, imports[k]);
        assert(imports.contains(imports[k]));
        assert(has_edge(store, imports[k], id, EdgeKind::ResolvesTo));
    } else {
        lemma_steps_of(store.steps@, id, true, hop == 0, i);
    }
}

// ---------------------------------------------------------------- drawn edges

/// The edge of a drawing stands for one of the graph.
pub open spec fn is_true(store: Store, q: Request, ev: EdgeView) -> bool {
    exists|src: u64, dst: u64, kind: EdgeKind| #[trigger]
        leads(store, q, src, dst, kind) && draws(store, ev, src, dst, kind)
}

spec fn all_true(store: Store, q: Request, w: WalkView) -> bool {
    forall|i: int| 0 <= i < w.edges.len() ==> is_true(store, q, #[trigger] w.edges[i])
}

proof fn lemma_take_links_true(store: Store, q: Request, w: WalkView, ls: Seq<Link>, hop: nat)
    requires
        all_true(store, q, w),
        forall|i: int|
            0 <= i < ls.len() ==> leads(
                store,
                q,
                (#[trigger] ls[i]).source,
                ls[i].target,
                ls[i].kind,
            ),
    ensures
        all_true(store, q, take_links(store, w, ls, hop)),
    decreases ls.len(),
{
    if ls.len() > 0 {
        let p = ls.drop_last();
        assert forall|i: int| 0 <= i < p.len() implies leads(
            store,
            q,
            (#[trigger] p[i]).source,
            p[i].target,
            p[i].kind,
        ) by {
            assert(p[i] == ls[i]);
        }
        lemma_take_links_true(store, q, w, p, hop);
        let g = take_links(store, w, p, hop);
        let l = ls.last();
        assert(l == ls[ls.len() - 1]);
        let h = take_link(store, g, l, hop);
        assert forall|i: int| 0 <= i < h.edges.len() implies is_true(
            store,
            q,
            #[trigger] h.edges[i],
        ) by {
            if i < g.edges.len() {
                assert(h.edges[i] == g.edges[i]);
            } else {
                assert(draws(store, h.edges[i], l.source, l.target, l.kind));
            }
        }
    }
}

proof fn lemma_start_has_no_edges(roots: Seq<Node>)
    ensures
        start(roots).edges.len() == 0,
        start(roots).seen =~= Set::empty(),
        start(roots).nodes.len() == 0,
    decreases roots.len(),
{
    if roots.len() > 0 {
        lemma_start_has_no_edges(roots.drop_last());
    }
}

proof fn lemma_after_true(store: Store, q: Request, roots: Seq<Node>, k: nat)
    requires
        steps_agree(store),
    ensures
        all_true(store, q, after(store, q, roots, k)),
    decreases k,
{
    if k == 0 {
        lemma_start_has_no_edges(roots);
    } else {
        lemma_after_true(store, q, roots, (k - 1) as nat);
        let w = after(store, q, roots, (k - 1) as nat);
        if k - 1 < w.queue.len() {
            let id = w.queue[k - 1].0;
            let hop = w.queue[k - 1].1;
            if let Some(n) = store.node(id) {
                let d = WalkView {
                    nodes: w.nodes.push(crate::graph::node_view(n, hop)),
                    used: w.used + n.token_cost as nat,
                    ..w
                };
                let ls = links(store, q, id, hop);
                let out = crate::graph::outward(store, q, id, hop);
                assert forall|i: int| 0 <= i < ls.len() implies leads(
                    store,
                    q,
                    (#[trigger] ls[i]).source,
                    ls[i].target,
                    ls[i].kind,
                ) by {
                    if i < out.len() {
                        lemma_outward_is_true(store, q, id, hop, i);
                    } else {
                        lemma_inward_is_true(store, q, id, hop, i - out.len());
                    }
                }
                lemma_take_links_true(store, q, d, ls, hop + 1);
            }
        }
    }
}

proof fn lemma_anchored(edges: Seq<EdgeView>, nodes: Seq<NodeView>, e: EdgeView)
    ensures
        anchored_edges(edges, nodes).contains(e) <==> edges.contains(e) && crate::graph::has_id(
            nodes,
            e.source,
        ) && crate::graph::has_id(nodes, e.target),
    decreases edges.len(),
{
    if edges.len() > 0 {
        let p = edges.drop_last();
        lemma_anchored(p, nodes, e);
        assert(edges =~= p.push(edges.last()));
        crate::store::lemma_push_contains(p, edges.last(), e);
        crate::store::lemma_push_contains(anchored_edges(p, nodes), edges.last(), e);
    }
}

/// Every drawn edge agrees with the graph in its ends, its direction and its kind, where the recorded steps
/// do.
pub proof fn law_drawn_edges_are_edges_of_the_graph(store: Store, q: Request, roots: Seq<Node>, i: int)
    requires
        steps_agree(store),
        0 <= i < anchored_edges(walked(store, q, roots).edges, walked(store, q, roots).nodes).len(),
    ensures
        is_true(
            store,
            q,
            anchored_edges(walked(store, q, roots).edges, walked(store, q, roots).nodes)[i],
        ),
{
    let w = walked(store, q, roots);
    let all = anchored_edges(w.edges, w.nodes);
    lemma_after_true(store, q, roots, choose|k: nat| is_done(store, q, roots, k));
    lemma_anchored(w.edges, w.nodes, all[i]);
    assert(all.contains(all[i]));
    let j = choose|j: int| 0 <= j < w.edges.len() && w.edges[j] == all[i];
    assert(is_true(store, q, w.edges[j]));
}

// ---------------------------------------------------------------- what a walk reaches

/// No two nodes share an id, nor a name in a drawing.
pub open spec fn nodes_differ(store: Store) -> bool {
    forall|i: int, j: int|
        0 <= i < j < store.nodes@.len() ==> (#[trigger] store.nodes@[i]).id != (
        #[trigger] store.nodes@[j]).id && json_id(store.nodes@[i]) != json_id(store.nodes@[j])
}

proof fn lemma_names_differ(store: Store, a: u64, b: u64)
    requires
        nodes_differ(store),
        store.node(a) is Some,
        store.node(b) is Some,
        json_id(store.node(a)->0) == json_id(store.node(b)->0),
    ensures
        a == b,
{
    crate::store::lemma_find_node(store.nodes@, a);
    crate::store::lemma_find_node(store.nodes@, b);
    let i = choose|i: int| 0 <= i < store.nodes@.len() && store.nodes@[i] == store.node(a)->0;
    let j = choose|j: int| 0 <= j < store.nodes@.len() && store.nodes@[j] == store.node(b)->0;
    if i < j {
        assert(json_id(store.nodes@[i]) != json_id(store.nodes@[j]));
    } else if j < i {
        assert(json_id(store.nodes@[j]) != json_id(store.nodes@[i]));
    }
}

/// `g` goes on from `w`: nothing that was reached or drawn is lost.
spec fn goes_on(w: WalkView, g: WalkView) -> bool {
    &&& w.queue.len() <= g.queue.len()
    &&& forall|i: int| 0 <= i < w.queue.len() ==> #[trigger] g.queue[i] == w.queue[i]
    &&& w.nodes.len() <= g.nodes.len()
    &&& forall|i: int| 0 <= i < w.nodes.len() ==> #[trigger] g.nodes[i] == w.nodes[i]
    &&& w.edges.len() <= g.edges.len()
    &&& forall|i: int| 0 <= i < w.edges.len() ==> #[trigger] g.edges[i] == w.edges[i]
    &&& w.seen.subset_of(g.seen)
}

proof fn lemma_goes_on(a: WalkView, b: WalkView, c: WalkView)
    requires
        goes_on(a, b),
        goes_on(b, c),
    ensures
        goes_on(a, c),
{
    assert forall|i: int| 0 <= i < a.queue.len() implies #[trigger] c.queue[i] == a.queue[i] by {
        assert(b.queue[i] == a.queue[i]);
    }
    assert forall|i: int| 0 <= i < a.nodes.len() implies #[trigger] c.nodes[i] == a.nodes[i] by {
        assert(b.nodes[i] == a.nodes[i]);
    }
    assert forall|i: int| 0 <= i < a.edges.len() implies #[trigger] c.edges[i] == a.edges[i] by {
        assert(b.edges[i] == a.edges[i]);
    }
}

proof fn lemma_kept_reached(w: WalkView, g: WalkView, id: u64)
    requires
        goes_on(w, g),
        w.reached(id),
    ensures
        g.reached(id),
{
    let i = choose|i: int| 0 <= i < w.queue.len() && (#[trigger] w.queue[i]).0 == id;
    assert(g.queue[i].0 == id);
}

proof fn lemma_kept_drawn(w: WalkView, g: WalkView, id: Seq<char>)
    requires
        goes_on(w, g),
        w.drawn(id),
    ensures
        g.drawn(id),
{
    let i = choose|i: int| 0 <= i < w.nodes.len() && (#[trigger] w.nodes[i]).id == id;
    assert(g.nodes[i].id == id);
}

/// Every link that was met is drawn, where both of its ends are known.
spec fn seen_is_drawn(store: Store, w: WalkView) -> bool {
    forall|a: u64, b: u64, k: EdgeKind| #[trigger]
        w.seen.contains((a, b, k)) && store.node(a) is Some && store.node(b) is Some
            ==> has_drawn(store, w.edges, a, b, k)
}

/// The edge between the two nodes is among the drawn ones.
pub open spec fn has_drawn(store: Store, edges: Seq<EdgeView>, a: u64, b: u64, k: EdgeKind) -> bool {
    exists|i: int| 0 <= i < edges.len() && draws(store, #[trigger] edges[i], a, b, k)
}

proof fn lemma_kept_edge(store: Store, w: WalkView, g: WalkView, a: u64, b: u64, k: EdgeKind)
    requires
        goes_on(w, g),
        has_drawn(store, w.edges, a, b, k),
    ensures
        has_drawn(store, g.edges, a, b, k),
{
    let i = choose|i: int| 0 <= i < w.edges.len() && draws(store, #[trigger] w.edges[i], a, b, k);
    assert(g.edges[i] == w.edges[i]);
}

proof fn lemma_take_link(store: Store, w: WalkView, l: Link, hop: nat)
    requires
        seen_is_drawn(store, w),
    ensures
        goes_on(w, take_link(store, w, l, hop)),
        seen_is_drawn(store, take_link(store, w, l, hop)),
        take_link(store, w, l, hop).reached(l.next),
        take_link(store, w, l, hop).seen.contains((l.source, l.target, l.kind)),
        take_link(store, w, l, hop).nodes == w.nodes,
{
    let g = take_link(store, w, l, hop);
    assert(g.reached(l.next)) by {
        if w.reached(l.next) {
            lemma_kept_reached(w, g, l.next);
        } else {
            assert(g.queue[g.queue.len() - 1].0 == l.next);
        }
    }
    assert forall|a: u64, b: u64, k: EdgeKind| #[trigger]
        g.seen.contains((a, b, k)) && store.node(a) is Some && store.node(b) is Some implies has_drawn(
        store,
        g.edges,
        a,
        b,
        k,
    ) by {
        if w.seen.contains((a, b, k)) {
            lemma_kept_edge(store, w, g, a, b, k);
        } else {
            assert(draws(store, g.edges[g.edges.len() - 1], a, b, k));
        }
    }
}

proof fn lemma_take_links(store: Store, w: WalkView, ls: Seq<Link>, hop: nat)
    requires
        seen_is_drawn(store, w),
    ensures
        goes_on(w, take_links(store, w, ls, hop)),
        seen_is_drawn(store, take_links(store, w, ls, hop)),
        take_links(store, w, ls, hop).nodes == w.nodes,
        forall|i: int|
            0 <= i < ls.len() ==> take_links(store, w, ls, hop).reached((#[trigger] ls[i]).next)
                && take_links(store, w, ls, hop).seen.contains(
                (ls[i].source, ls[i].target, ls[i].kind),
            ),
    decreases ls.len(),
{
    if ls.len() > 0 {
        let p = ls.drop_last();
        lemma_take_links(store, w, p, hop);
        let g = take_links(store, w, p, hop);
        lemma_take_link(store, g, ls.last(), hop);
        let h = take_links(store, w, ls, hop);
        lemma_goes_on(w, g, h);
        assert forall|i: int| 0 <= i < ls.len() implies h.reached((#[trigger] ls[i]).next)
            && h.seen.contains((ls[i].source, ls[i].target, ls[i].kind)) by {
            if i < p.len() {
                assert(p[i] == ls[i]);
                lemma_kept_reached(g, h, ls[i].next);
            }
        }
    }
}

/// The node at a place of the queue is one that is drawn and gone on from.
pub open spec fn is_open(store: Store, q: Request, w: WalkView, j: int) -> bool {
    &&& 0 <= j < w.queue.len()
    &&& store.node(w.queue[j].0) matches Some(n) && !is_skipped(q, n, w.queue[j].1)
    &&& w.queue[j].1 < q.depth
    &&& w.queue[j].2
}

/// What holds of a walk without a budget after its first `k` nodes.
spec fn covers(store: Store, q: Request, w: WalkView, k: nat) -> bool {
    &&& seen_is_drawn(store, w)
    &&& forall|i: int, j: int|
        0 <= i < j < w.queue.len() ==> (#[trigger] w.queue[i]).0 != (#[trigger] w.queue[j]).0
    // What is drawn was reached before.
    &&& forall|i: int|
        0 <= i < w.nodes.len() ==> exists|j: int|
            0 <= j < k && j < w.queue.len() && (store.node((#[trigger] w.queue[j]).0) matches Some(n)
                && json_id(n) == (#[trigger] w.nodes[i]).id)
    // What was reached is drawn.
    &&& forall|j: int|
        0 <= j < k && j < w.queue.len() ==> (store.node((#[trigger] w.queue[j]).0) matches Some(n)
            ==> !is_skipped(q, n, w.queue[j].1) ==> w.drawn(json_id(n)))
    // Every link of what is gone on from was met.
    &&& forall|j: int, i: int|
        0 <= j < k && is_open(store, q, w, j) && 0 <= i < links(
            store,
            q,
            w.queue[j].0,
            w.queue[j].1,
        ).len() ==> {
            let l = #[trigger] links(store, q, w.queue[j].0, w.queue[j].1)[i];
            w.reached(l.next) && w.seen.contains((l.source, l.target, l.kind))
        }
}

proof fn lemma_reach_once(w: WalkView, id: u64, hop: nat, expand: bool)
    requires
        forall|i: int, j: int|
            0 <= i < j < w.queue.len() ==> (#[trigger] w.queue[i]).0 != (#[trigger] w.queue[j]).0,
    ensures
        forall|i: int, j: int|
            0 <= i < j < reach(w, id, hop, expand).queue.len() ==> (#[trigger] reach(
                w,
                id,
                hop,
                expand,
            ).queue[i]).0 != (#[trigger] reach(w, id, hop, expand).queue[j]).0,
{
    let r = reach(w, id, hop, expand);
    if !w.reached(id) {
        assert forall|i: int, j: int| 0 <= i < j < r.queue.len() implies (#[trigger] r.queue[i]).0 != (
        #[trigger] r.queue[j]).0 by {
            assert(r.queue[i] == w.queue[i]);
            if j < w.queue.len() {
                assert(r.queue[j] == w.queue[j]);
            }
        }
    }
}

proof fn lemma_take_links_once(store: Store, w: WalkView, ls: Seq<Link>, hop: nat)
    requires
        forall|i: int, j: int|
            0 <= i < j < w.queue.len() ==> (#[trigger] w.queue[i]).0 != (#[trigger] w.queue[j]).0,
    ensures
        forall|i: int, j: int|
            0 <= i < j < take_links(store, w, ls, hop).queue.len() ==> (#[trigger] take_links(
                store,
                w,
                ls,
                hop,
            ).queue[i]).0 != (#[trigger] take_links(store, w, ls, hop).queue[j]).0,
    decreases ls.len(),
{
    if ls.len() > 0 {
        let p = take_links(store, w, ls.drop_last(), hop);
        lemma_take_links_once(store, w, ls.drop_last(), hop);
        let l = ls.last();
        let g = take_link(store, p, l, hop);
        assert forall|i: int, j: int| 0 <= i < j < g.queue.len() implies (#[trigger] g.queue[i]).0 != (
        #[trigger] g.queue[j]).0 by {
            assert(i < p.queue.len());
            assert(g.queue[i] == p.queue[i]);
            if j < p.queue.len() {
                assert(g.queue[j] == p.queue[j]);
            }
        }
    }
}

proof fn lemma_start_reached(roots: Seq<Node>)
    ensures
        forall|i: int| 0 <= i < roots.len() ==> start(roots).reached((#[trigger] roots[i]).id),
        forall|i: int|
            0 <= i < start(roots).queue.len() ==> (#[trigger] start(roots).queue[i]).1 == 0 && start(
                roots,
            ).queue[i].2,
        forall|i: int, j: int|
            0 <= i < j < start(roots).queue.len() ==> (#[trigger] start(roots).queue[i]).0 != (
            #[trigger] start(roots).queue[j]).0,
    decreases roots.len(),
{
    if roots.len() > 0 {
        let p = roots.drop_last();
        lemma_start_reached(p);
        let w = start(p);
        let g = start(roots);
        lemma_reach_once(w, roots.last().id, 0, true);
        assert(goes_on(w, g));
        assert forall|i: int| 0 <= i < roots.len() implies g.reached((#[trigger] roots[i]).id) by {
            if i < p.len() {
                assert(p[i] == roots[i]);
                lemma_kept_reached(w, g, roots[i].id);
            } else if w.reached(roots[i].id) {
                lemma_kept_reached(w, g, roots[i].id);
            } else {
                assert(g.queue[g.queue.len() - 1].0 == roots[i].id);
            }
        }
        assert forall|i: int| 0 <= i < g.queue.len() implies (#[trigger] g.queue[i]).1 == 0
            && g.queue[i].2 by {
            if i < w.queue.len() {
                assert(g.queue[i] == w.queue[i]);
            }
        }
    }
}

proof fn lemma_visit_goes_on(
    store: Store,
    q: Request,
    w: WalkView,
    id: u64,
    hop: nat,
    expand: bool,
)
    requires
        seen_is_drawn(store, w),
    ensures
        goes_on(w, visit(store, q, w, id, hop, expand)),
{
    if let Some(n) = store.node(id) {
        let d = WalkView {
            nodes: w.nodes.push(crate::graph::node_view(n, hop)),
            used: w.used + n.token_cost as nat,
            ..w
        };
        assert(goes_on(w, d));
        assert(seen_is_drawn(store, d));
        lemma_take_links(store, d, links(store, q, id, hop), hop + 1);
        lemma_goes_on(w, d, take_links(store, d, links(store, q, id, hop), hop + 1));
    }
}

/// What the nodes before covered stays covered when the walk goes on.
proof fn lemma_covers_kept(store: Store, q: Request, w: WalkView, g: WalkView, k: nat)
    requires
        covers(store, q, w, k),
        goes_on(w, g),
        k <= w.queue.len(),
    ensures
        forall|j: int|
            0 <= j < k ==> (store.node((#[trigger] g.queue[j]).0) matches Some(n) ==> !is_skipped(
                q,
                n,
                g.queue[j].1,
            ) ==> g.drawn(json_id(n))),
        forall|j: int, i: int|
            0 <= j < k && is_open(store, q, g, j) && 0 <= i < links(
                store,
                q,
                g.queue[j].0,
                g.queue[j].1,
            ).len() ==> {
                let l = #[trigger] links(store, q, g.queue[j].0, g.queue[j].1)[i];
                g.reached(l.next) && g.seen.contains((l.source, l.target, l.kind))
            },
{
    assert forall|j: int| 0 <= j < k implies (store.node((#[trigger] g.queue[j]).0) matches Some(n)
        ==> !is_skipped(q, n, g.queue[j].1) ==> g.drawn(json_id(n))) by {
        assert(g.queue[j] == w.queue[j]);
        if let Some(n) = store.node(g.queue[j].0) {
            if !is_skipped(q, n, g.queue[j].1) {
                assert(w.drawn(json_id(n)));
                lemma_kept_drawn(w, g, json_id(n));
            }
        }
    }
    assert forall|j: int, i: int|
        0 <= j < k && is_open(store, q, g, j) && 0 <= i < links(
            store,
            q,
            g.queue[j].0,
            g.queue[j].1,
        ).len() implies {
        let l = #[trigger] links(store, q, g.queue[j].0, g.queue[j].1)[i];
        g.reached(l.next) && g.seen.contains((l.source, l.target, l.kind))
    } by {
        assert(g.queue[j] == w.queue[j]);
        assert(is_open(store, q, w, j));
        let l = links(store, q, w.queue[j].0, w.queue[j].1)[i];
        assert(w.reached(l.next));
        lemma_kept_reached(w, g, l.next);
    }
}

proof fn lemma_take_links_cut(store: Store, w: WalkView, ls: Seq<Link>, hop: nat)
    ensures
        take_links(store, w, ls, hop).cut == w.cut,
    decreases ls.len(),
{
    if ls.len() > 0 {
        lemma_take_links_cut(store, w, ls.drop_last(), hop);
    }
}

proof fn lemma_visit_cut(store: Store, q: Request, w: WalkView, id: u64, hop: nat, expand: bool)
    ensures
        w.cut ==> visit(store, q, w, id, hop, expand).cut,
        q.budget == 0 && !w.cut ==> !visit(store, q, w, id, hop, expand).cut,
{
    if let Some(n) = store.node(id) {
        let d = WalkView {
            nodes: w.nodes.push(crate::graph::node_view(n, hop)),
            used: w.used + n.token_cost as nat,
            ..w
        };
        lemma_take_links_cut(store, d, links(store, q, id, hop), hop + 1);
    }
}

proof fn lemma_start_cuts_nothing(roots: Seq<Node>)
    ensures
        !start(roots).cut,
    decreases roots.len(),
{
    if roots.len() > 0 {
        lemma_start_cuts_nothing(roots.drop_last());
    }
}

proof fn lemma_after_cut(store: Store, q: Request, roots: Seq<Node>, k: nat)
    requires
        q.budget == 0,
    ensures
        !after(store, q, roots, k).cut,
    decreases k,
{
    if k == 0 {
        lemma_start_cuts_nothing(roots);
    } else {
        lemma_after_cut(store, q, roots, (k - 1) as nat);
        let w = after(store, q, roots, (k - 1) as nat);
        if k - 1 < w.queue.len() {
            lemma_visit_cut(store, q, w, w.queue[k - 1].0, w.queue[k - 1].1, w.queue[k - 1].2);
        }
    }
}

/// Without a budget no node is left out for it.
pub proof fn law_no_budget_cuts_nothing(store: Store, q: Request, roots: Seq<Node>)
    requires
        q.budget == 0,
    ensures
        !walked(store, q, roots).cut,
{
    lemma_after_cut(store, q, roots, choose|k: nat| is_done(store, q, roots, k));
}

proof fn lemma_covers(store: Store, q: Request, roots: Seq<Node>, k: nat)
    requires
        nodes_differ(store),
        !after(store, q, roots, k).cut,
        after(store, q, roots, k).nodes.len() < 200,
    ensures
        covers(store, q, after(store, q, roots, k), k),
        goes_on(start(roots), after(store, q, roots, k)),
    decreases k,
{
    if k == 0 {
        lemma_start_has_no_edges(roots);
        lemma_start_reached(roots);
    } else {
        let w = after(store, q, roots, (k - 1) as nat);
        let g = after(store, q, roots, k);
        lemma_seen_is_drawn(store, q, roots, (k - 1) as nat);
        if k - 1 < w.queue.len() {
            let (id, hop, expand) = w.queue[k - 1];
            lemma_visit_goes_on(store, q, w, id, hop, expand);
            lemma_visit_cut(store, q, w, id, hop, expand);
            lemma_covers(store, q, roots, (k - 1) as nat);
            lemma_goes_on(start(roots), w, g);
            lemma_covers_visit(store, q, w, g, k, id, hop, expand);
        } else {
            lemma_covers(store, q, roots, (k - 1) as nat);
            assert(g == w);
            assert forall|i: int| 0 <= i < w.nodes.len() implies exists|j: int|
                0 <= j < k && j < w.queue.len() && (store.node((#[trigger] w.queue[j]).0) matches Some(
                    n,
                ) && json_id(n) == (#[trigger] w.nodes[i]).id) by {
                let j = choose|j: int|
                    0 <= j < k - 1 && j < w.queue.len() && (store.node(
                        (#[trigger] w.queue[j]).0,
                    ) matches Some(n) && json_id(n) == w.nodes[i].id);
                assert(j < k);
            }
        }
    }
}

proof fn lemma_seen_is_drawn(store: Store, q: Request, roots: Seq<Node>, k: nat)
    ensures
        seen_is_drawn(store, after(store, q, roots, k)),
    decreases k,
{
    if k == 0 {
        lemma_start_has_no_edges(roots);
    } else {
        lemma_seen_is_drawn(store, q, roots, (k - 1) as nat);
        let w = after(store, q, roots, (k - 1) as nat);
        if k - 1 < w.queue.len() {
            let id = w.queue[k - 1].0;
            let hop = w.queue[k - 1].1;
            if let Some(n) = store.node(id) {
                let d = WalkView {
                    nodes: w.nodes.push(crate::graph::node_view(n, hop)),
                    used: w.used + n.token_cost as nat,
                    ..w
                };
                assert(seen_is_drawn(store, d));
                lemma_take_links(store, d, links(store, q, id, hop), hop + 1);
            }
        }
    }
}

proof fn lemma_covers_visit(
    store: Store,
    q: Request,
    w: WalkView,
    g: WalkView,
    k: nat,
    id: u64,
    hop: nat,
    expand: bool,
)
    requires
        nodes_differ(store),
        !g.cut,
        k > 0,
        k - 1 < w.queue.len(),
        w.queue[k - 1] == (id, hop, expand),
        covers(store, q, w, (k - 1) as nat),
        g == visit(store, q, w, id, hop, expand),
        goes_on(w, g),
        g.nodes.len() < 200,
    ensures
        covers(store, q, g, k),
{
    lemma_covers_kept(store, q, w, g, (k - 1) as nat);
    assert(g.queue[k - 1] == w.queue[k - 1]);
    match store.node(id) {
        Some(n) => {
            if !is_skipped(q, n, hop) {
                assert(!w.drawn(json_id(n))) by {
                    if w.drawn(json_id(n)) {
                        let i = choose|i: int|
                            0 <= i < w.nodes.len() && (#[trigger] w.nodes[i]).id == json_id(n);
                        let j = choose|j: int|
                            0 <= j < k - 1 && j < w.queue.len() && (store.node(
                                (#[trigger] w.queue[j]).0,
                            ) matches Some(m) && json_id(m) == w.nodes[i].id);
                        lemma_names_differ(store, w.queue[j].0, id);
                        assert(w.queue[j].0 != w.queue[k - 1].0);
                    }
                }
                let d = WalkView {
                    nodes: w.nodes.push(crate::graph::node_view(n, hop)),
                    used: w.used + n.token_cost as nat,
                    ..w
                };
                let ls = links(store, q, id, hop);
                assert(seen_is_drawn(store, d));
                lemma_take_links(store, d, ls, hop + 1);
                lemma_take_links_once(store, d, ls, hop + 1);
                assert(g.nodes == d.nodes);
                assert(g.nodes[g.nodes.len() - 1].id == json_id(n));
                assert(g.drawn(json_id(n)));
                assert forall|i: int| 0 <= i < g.nodes.len() implies exists|j: int|
                    0 <= j < k && j < g.queue.len() && (store.node(
                        (#[trigger] g.queue[j]).0,
                    ) matches Some(m) && json_id(m) == (#[trigger] g.nodes[i]).id) by {
                    if i < w.nodes.len() {
                        assert(g.nodes[i] == w.nodes[i]);
                        let j = choose|j: int|
                            0 <= j < k - 1 && j < w.queue.len() && (store.node(
                                (#[trigger] w.queue[j]).0,
                            ) matches Some(m) && json_id(m) == w.nodes[i].id);
                        assert(g.queue[j] == w.queue[j]);
                    } else {
                        assert(store.node(g.queue[k - 1].0) == Some(n));
                    }
                }
                assert forall|j: int, i: int|
                    0 <= j < k && is_open(store, q, g, j) && 0 <= i < links(
                        store,
                        q,
                        g.queue[j].0,
                        g.queue[j].1,
                    ).len() implies {
                    let l = #[trigger] links(store, q, g.queue[j].0, g.queue[j].1)[i];
                    g.reached(l.next) && g.seen.contains((l.source, l.target, l.kind))
                } by {
                    if j == k - 1 {
                        assert(g == take_links(store, d, ls, hop + 1));
                        assert(ls[i] == links(store, q, g.queue[j].0, g.queue[j].1)[i]);
                    }
                }
            } else {
                lemma_covers_more(store, q, w, k);
            }
        },
        None => {
            lemma_covers_more(store, q, w, k);
        },
    }
}

/// A node that is not drawn adds nothing.
proof fn lemma_covers_more(store: Store, q: Request, w: WalkView, k: nat)
    requires
        k > 0,
        k - 1 < w.queue.len(),
        covers(store, q, w, (k - 1) as nat),
        store.node(w.queue[k - 1].0) matches Some(n) ==> is_skipped(q, n, w.queue[k - 1].1),
    ensures
        covers(store, q, w, k),
{
    assert forall|i: int| 0 <= i < w.nodes.len() implies exists|j: int|
        0 <= j < k && j < w.queue.len() && (store.node((#[trigger] w.queue[j]).0) matches Some(n)
            && json_id(n) == (#[trigger] w.nodes[i]).id) by {
        let j = choose|j: int|
            0 <= j < k - 1 && j < w.queue.len() && (store.node((#[trigger] w.queue[j]).0) matches Some(
                n,
            ) && json_id(n) == w.nodes[i].id);
        assert(j < k);
    }
}

// ---------------------------------------------------------------- laws on what is drawn

/// A step of that kind is recorded from the node to the next one.
pub open spec fn has_step(
    store: Store,
    id: u64,
    callers: bool,
    first: bool,
    next: u64,
    kind: EdgeKind,
) -> bool {
    exists|j: int|
        0 <= j < crate::graph::steps_of(store.steps@, id, callers, first).len() && (
        #[trigger] crate::graph::steps_of(store.steps@, id, callers, first)[j]).next == next
            && crate::graph::steps_of(store.steps@, id, callers, first)[j].kind == kind
}

/// A walk in the wanted direction comes from the node to the next one, over an edge from `src` to `dst`.
pub open spec fn comes_to(
    store: Store,
    q: Request,
    id: u64,
    first: bool,
    src: u64,
    dst: u64,
    kind: EdgeKind,
) -> bool {
    ||| {
        // Along the edges.
        &&& q.direction == "deps"@ || q.direction == "both"@
        &&& src == id
        &&& if q.kind == "file"@ {
            kind == EdgeKind::Depends && crate::graph::is_file(store, dst) && exists|m: u64|
                has_edge(store, id, m, EdgeKind::Depends) && #[trigger] has_edge(
                    store,
                    m,
                    dst,
                    EdgeKind::ResolvesTo,
                )
        } else {
            has_step(store, id, false, first, dst, kind)
        }
    }
    ||| {
        // Against the edges.
        &&& q.direction == "callers"@ || q.direction == "both"@
        &&& dst == id
        &&& if q.kind == "file"@ {
            kind == EdgeKind::Depends && crate::graph::is_file(store, src) && exists|m: u64|
                has_read_edge(store, m, id, EdgeKind::ResolvesTo) && #[trigger] has_read_edge(
                    store,
                    src,
                    m,
                    EdgeKind::Depends,
                )
        } else {
            has_step(store, id, true, first, src, kind)
        }
    }
}

proof fn lemma_outward_has(store: Store, q: Request, id: u64, hop: nat, dst: u64, kind: EdgeKind)
    requires
        q.direction == "deps"@ || q.direction == "both"@,
        if q.kind == "file"@ {
            kind == EdgeKind::Depends && crate::graph::is_file(store, dst) && exists|m: u64|
                has_edge(store, id, m, EdgeKind::Depends) && #[trigger] has_edge(
                    store,
                    m,
                    dst,
                    EdgeKind::ResolvesTo,
                )
        } else {
            has_step(store, id, false, hop == 0, dst, kind)
        },
    ensures
        exists|i: int|
            0 <= i < crate::graph::outward(store, q, id, hop).len() && {
                let l = #[trigger] crate::graph::outward(store, q, id, hop)[i];
                l.source == id && l.target == dst && l.kind == kind && l.next == dst
            },
{
    let out = crate::graph::outward(store, q, id, hop);
    if q.kind == "file"@ {
        let m = choose|m: u64|
            has_edge(store, id, m, EdgeKind::Depends) && #[trigger] has_edge(
                store,
                m,
                dst,
                EdgeKind::ResolvesTo,
            );
        let imports = crate::deps::targets(
            crate::store::leaving(store.edges@, id),
            EdgeKind::Depends,
        );
        lemma_targets(store.edges@, id, EdgeKind::Depends, m);
        assert(imports.contains(m));
        let k = choose|k: int| 0 <= k < imports.len() && imports[k] == m;
        lemma_through(store, imports, dst);
        assert(has_edge(store, imports[k], dst, EdgeKind::ResolvesTo));
        assert(crate::graph::through(store, imports).contains(dst));
        lemma_out_links(store, id, crate::graph::through(store, imports));
        let x = Link { source: id, target: dst, kind: EdgeKind::Depends, next: dst, expand: true };
        assert(out.contains(x));
        let i = choose|i: int| 0 <= i < out.len() && out[i] == x;
        assert(out[i].target == dst);
    } else {
        let first = hop == 0;
        let v = crate::graph::steps_of(store.steps@, id, false, first);
        let j = choose|j: int|
            0 <= j < v.len() && (#[trigger] v[j]).next == dst && v[j].kind == kind;
        assert(out[j].target == dst);
    }
}

proof fn lemma_inward_has(store: Store, q: Request, id: u64, hop: nat, src: u64, kind: EdgeKind)
    requires
        q.direction == "callers"@ || q.direction == "both"@,
        if q.kind == "file"@ {
            kind == EdgeKind::Depends && crate::graph::is_file(store, src) && exists|m: u64|
                has_read_edge(store, m, id, EdgeKind::ResolvesTo) && #[trigger] has_read_edge(
                    store,
                    src,
                    m,
                    EdgeKind::Depends,
                )
        } else {
            has_step(store, id, true, hop == 0, src, kind)
        },
    ensures
        exists|i: int|
            0 <= i < crate::graph::inward(store, q, id, hop).len() && {
                let l = #[trigger] crate::graph::inward(store, q, id, hop)[i];
                l.source == src && l.target == id && l.kind == kind && l.next == src
            },
{
    let out = crate::graph::inward(store, q, id, hop);
    if q.kind == "file"@ {
        let m = choose|m: u64|
            has_read_edge(store, m, id, EdgeKind::ResolvesTo) && #[trigger] has_read_edge(
                store,
                src,
                m,
                EdgeKind::Depends,
            );
        let imports = crate::graph::sources(store.arriving(id), EdgeKind::ResolvesTo);
        lemma_arriving_sources(store, id, EdgeKind::ResolvesTo, m);
        assert(imports.contains(m));
        let k = choose|k: int| 0 <= k < imports.len() && imports[k] == m;
        lemma_importers(store, imports, src);
        assert(has_read_edge(store, src, imports[k], EdgeKind::Depends));
        assert(crate::graph::importers(store, imports).contains(src));
        lemma_in_links(store, id, crate::graph::importers(store, imports));
        let x = Link { source: src, target: id, kind: EdgeKind::Depends, next: src, expand: true };
        assert(out.contains(x));
        let i = choose|i: int| 0 <= i < out.len() && out[i] == x;
        assert(out[i].source == src);
    } else {
        let first = hop == 0;
        let v = crate::graph::steps_of(store.steps@, id, true, first);
        let j = choose|j: int|
            0 <= j < v.len() && (#[trigger] v[j]).next == src && v[j].kind == kind;
        assert(out[j].source == src);
    }
}

proof fn lemma_comes_to(
    store: Store,
    q: Request,
    id: u64,
    hop: nat,
    src: u64,
    dst: u64,
    kind: EdgeKind,
)
    requires
        comes_to(store, q, id, hop == 0, src, dst, kind),
    ensures
        exists|i: int|
            0 <= i < links(store, q, id, hop).len() && {
                let l = #[trigger] links(store, q, id, hop)[i];
                l.source == src && l.target == dst && l.kind == kind && (l.next == src || l.next
                    == dst) && (src == id && l.next == dst || dst == id && l.next == src)
            },
{
    let out = crate::graph::outward(store, q, id, hop);
    let back = crate::graph::inward(store, q, id, hop);
    let all = links(store, q, id, hop);
    let along = (q.direction == "deps"@ || q.direction == "both"@) && src == id && if q.kind
        == "file"@ {
        kind == EdgeKind::Depends && crate::graph::is_file(store, dst) && exists|m: u64|
            has_edge(store, id, m, EdgeKind::Depends) && #[trigger] has_edge(
                store,
                m,
                dst,
                EdgeKind::ResolvesTo,
            )
    } else {
        has_step(store, id, false, hop == 0, dst, kind)
    };
    if along {
        lemma_outward_has(store, q, id, hop, dst, kind);
        let i = choose|i: int|
            0 <= i < out.len() && {
                let l = #[trigger] out[i];
                l.source == id && l.target == dst && l.kind == kind && l.next == dst
            };
        assert(all[i] == out[i]);
    } else {
        lemma_inward_has(store, q, id, hop, src, kind);
        let i = choose|i: int|
            0 <= i < back.len() && {
                let l = #[trigger] back[i];
                l.source == src && l.target == id && l.kind == kind && l.next == src
            };
        assert(all[out.len() + i] == back[i]);
    }
}

/// The node is drawn.
pub open spec fn shows(nodes: Seq<NodeView>, n: Node) -> bool {
    exists|i: int| 0 <= i < nodes.len() && (#[trigger] nodes[i]).id == json_id(n)
}

/// A drawing that is not full and from which no budget cuts a node shows every starting node, and all that a walk comes to from
/// a starting node, with the edge between the two.
pub proof fn law_neighbours_of_a_root_are_drawn(
    store: Store,
    q: Request,
    roots: Seq<Node>,
    r: int,
    src: u64,
    dst: u64,
    kind: EdgeKind,
)
    requires
        nodes_differ(store),
        !walked(store, q, roots).cut,
        q.depth > 0,
        walked(store, q, roots).nodes.len() < 200,
        0 <= r < roots.len(),
        store.node(roots[r].id) matches Some(n) && !is_skipped(q, n, 0),
        comes_to(store, q, roots[r].id, true, src, dst, kind),
        store.node(src) matches Some(a) && !is_skipped(q, a, 1),
        store.node(dst) matches Some(b) && !is_skipped(q, b, 1),
    ensures
        shows(walked(store, q, roots).nodes, store.node(roots[r].id)->0),
        shows(walked(store, q, roots).nodes, store.node(src)->0),
        shows(walked(store, q, roots).nodes, store.node(dst)->0),
        has_drawn(
            store,
            anchored_edges(walked(store, q, roots).edges, walked(store, q, roots).nodes),
            src,
            dst,
            kind,
        ),
{
    let w = walked(store, q, roots);
    crate::graph::law_every_walk_ends(store, q, roots);
    let k = choose|k: nat| is_done(store, q, roots, k);
    lemma_covers(store, q, roots, k);
    lemma_start_reached(roots);
    let s = start(roots);
    let id = roots[r].id;
    assert(s.reached(id));
    let j = choose|j: int| 0 <= j < s.queue.len() && (#[trigger] s.queue[j]).0 == id;
    assert(w.queue[j] == s.queue[j]);
    assert(w.queue[j] == (id, 0nat, true));
    assert(is_open(store, q, w, j));
    lemma_comes_to(store, q, id, 0, src, dst, kind);
    let ls = links(store, q, id, 0);
    let i = choose|i: int|
        0 <= i < ls.len() && {
            let l = #[trigger] ls[i];
            l.source == src && l.target == dst && l.kind == kind && (l.next == src || l.next == dst)
                && (src == id && l.next == dst || dst == id && l.next == src)
        };
    let l = ls[i];
    assert(links(store, q, w.queue[j].0, w.queue[j].1)[i] == l);
    assert(w.reached(l.next) && w.seen.contains((l.source, l.target, l.kind)));
    let t = choose|t: int| 0 <= t < w.queue.len() && (#[trigger] w.queue[t]).0 == l.next;
    let m = store.node(l.next)->0;
    assert(!is_skipped(q, m, w.queue[t].1));
    assert(w.drawn(json_id(m)));
    assert(w.drawn(json_id(store.node(id)->0)));
    assert(has_drawn(store, w.edges, src, dst, kind));
    let e = choose|e: int| 0 <= e < w.edges.len() && draws(store, #[trigger] w.edges[e], src, dst, kind);
    lemma_anchored(w.edges, w.nodes, w.edges[e]);
    assert(w.edges.contains(w.edges[e]));
    let all = anchored_edges(w.edges, w.nodes);
    assert(all.contains(w.edges[e]));
    let f = choose|f: int| 0 <= f < all.len() && all[f] == w.edges[e];
    assert(draws(store, all[f], src, dst, kind));
}

/// In a drawing that is not full and from which no budget cuts a node, what was reached is drawn; and where the walk goes on
/// from a node, all that it comes to was reached, and the edge to it is drawn where both ends are.
pub proof fn law_walk_follows_the_graph(store: Store, q: Request, roots: Seq<Node>)
    requires
        nodes_differ(store),
        !walked(store, q, roots).cut,
        walked(store, q, roots).nodes.len() < 200,
    ensures
        forall|r: int|
            0 <= r < roots.len() ==> walked(store, q, roots).reached((#[trigger] roots[r]).id),
        forall|j: int|
            0 <= j < walked(store, q, roots).queue.len() ==> (store.node(
                (#[trigger] walked(store, q, roots).queue[j]).0,
            ) matches Some(n) ==> !is_skipped(q, n, walked(store, q, roots).queue[j].1) ==> shows(
                walked(store, q, roots).nodes,
                n,
            )),
        forall|j: int, first: bool, src: u64, dst: u64, kind: EdgeKind|
            is_open(store, q, walked(store, q, roots), j) && first == (walked(
                store,
                q,
                roots,
            ).queue[j].1 == 0) && #[trigger] comes_to(
                store,
                q,
                walked(store, q, roots).queue[j].0,
                first,
                src,
                dst,
                kind,
            ) ==> {
                &&& walked(store, q, roots).reached(src)
                &&& walked(store, q, roots).reached(dst)
                &&& store.node(src) is Some && store.node(dst) is Some ==> has_drawn(
                    store,
                    walked(store, q, roots).edges,
                    src,
                    dst,
                    kind,
                )
            },
{
    let w = walked(store, q, roots);
    crate::graph::law_every_walk_ends(store, q, roots);
    let k = choose|k: nat| is_done(store, q, roots, k);
    lemma_covers(store, q, roots, k);
    lemma_start_reached(roots);
    assert forall|r: int| 0 <= r < roots.len() implies w.reached((#[trigger] roots[r]).id) by {
        lemma_kept_reached(start(roots), w, roots[r].id);
    }
    assert forall|j: int, first: bool, src: u64, dst: u64, kind: EdgeKind|
        is_open(store, q, w, j) && first == (w.queue[j].1 == 0) && #[trigger] comes_to(
            store,
            q,
            w.queue[j].0,
            first,
            src,
            dst,
            kind,
        ) implies w.reached(src) && w.reached(dst) && (store.node(src) is Some && store.node(
        dst,
    ) is Some ==> has_drawn(store, w.edges, src, dst, kind)) by {
        let (id, hop, _) = w.queue[j];
        lemma_comes_to(store, q, id, hop, src, dst, kind);
        let ls = links(store, q, id, hop);
        let i = choose|i: int|
            0 <= i < ls.len() && {
                let l = #[trigger] ls[i];
                l.source == src && l.target == dst && l.kind == kind && (l.next == src || l.next
                    == dst) && (src == id && l.next == dst || dst == id && l.next == src)
            };
        let l = ls[i];
        assert(links(store, q, w.queue[j].0, w.queue[j].1)[i] == l);
        assert(w.reached(l.next) && w.seen.contains((l.source, l.target, l.kind)));
        assert(w.queue[j].0 == id);
        assert(w.reached(id));
    }
}

// ---------------------------------------------------------------- names in a drawing

/// A symbol is named by its file and signature, a file by its path and corpus.
pub proof fn law_nodes_are_named_by_their_place(n: Node)
    ensures
        n.kind@ != "file"@ && n.path@.len() > 0 ==> json_id(n) == n.path@ + ":"@ + n.signature@,
        n.kind@ == "file"@ && n.corpus@.len() > 0 ==> json_id(n) == n.corpus@ + ":"@ + n.path@,
        n.kind@ == "file"@ && n.corpus@.len() == 0 ==> json_id(n) == n.path@,
{
}

/// A file is labelled with its own name, a symbol with its name without the kind.
pub proof fn law_nodes_are_labelled_by_their_name(n: Node, dir: Seq<char>, name: Seq<char>)
    ensures
        n.kind@ == "file"@ && !name.contains('/') && n.path@ == dir + "/"@ + name
            ==> crate::graph::json_label(n) == name,
        n.kind@ != "file"@ && n.signature@ == "fn:"@ + name ==> crate::graph::json_label(n) == name,
        n.kind@ != "file"@ && n.signature@ == "class:"@ + name ==> crate::graph::json_label(n) == name,
        n.kind@ != "file"@ && n.signature@ == "method:"@ + name ==> crate::graph::json_label(n) == name,
{
    reveal_strlit("/");
    reveal_strlit("fn:");
    reveal_strlit("class:");
    reveal_strlit("method:");
    reveal_strlit("scip:");
    if n.kind@ == "file"@ && !name.contains('/') && n.path@ == dir + "/"@ + name {
        crate::text_laws::law_after_last_is_the_rest(dir, '/', name, '/', '/');
        assert(dir + "/"@ + name =~= dir.push('/') + name);
    }
    let s = n.signature@;
    if s == "fn:"@ + name {
        assert(s.subrange(0, 3) =~= "fn:"@);
        lemma_differs(s, "scip:"@);
        assert(s.skip(3) =~= name);
    }
    if s == "class:"@ + name {
        assert(s.subrange(0, 6) =~= "class:"@);
        lemma_differs(s, "scip:"@);
        lemma_differs(s, "fn:"@);
        assert(s.skip(6) =~= name);
    }
    if s == "method:"@ + name {
        assert(s.subrange(0, 7) =~= "method:"@);
        lemma_differs(s, "scip:"@);
        lemma_differs(s, "fn:"@);
        lemma_differs(s, "class:"@);
        assert(s.skip(7) =~= name);
    }
}

proof fn lemma_differs(s: Seq<char>, p: Seq<char>)
    requires
        s.len() > 0,
        p.len() > 0,
        s[0] != p[0],
    ensures
        !crate::text::starts_with(s, p),
{
    if crate::text::starts_with(s, p) {
        assert(s.subrange(0, 0 + p.len() as int)[0] == p[0]);
    }
}

/// Relations are named by what they are.
pub proof fn law_relations_have_their_names()
    ensures
        crate::graph::kind_name(EdgeKind::DefinesBinding) == "defines"@,
        crate::graph::kind_name(EdgeKind::RefCall) == "calls"@,
        crate::graph::kind_name(EdgeKind::Depends) == "imports"@,
        crate::graph::kind_name(EdgeKind::ResolvesTo) == "resolves-to"@,
        crate::graph::kind_name(EdgeKind::Exports) == "exports"@,
        crate::graph::kind_name(EdgeKind::RefImports) == "ref/imports"@,
        crate::graph::kind_name(EdgeKind::IsImplementation) == "is-implementation"@,
        crate::graph::kind_name(EdgeKind::Overrides) == "overrides"@,
        crate::graph::kind_name(EdgeKind::FFICall) == "ffi/call"@,
        crate::graph::kind_name(EdgeKind::Configures) == "configures"@,
        crate::graph::kind_name(EdgeKind::ExternalDependency) == "external-dependency"@,
{
}

// ---------------------------------------------------------------- starting nodes

/// The hit may be a starting node: of the wanted kind, or else no index symbol.
pub open spec fn may_start(n: Node, kind: Seq<char>) -> bool {
    if kind.len() > 0 {
        n.kind@ == kind
    } else {
        !("scip:"@).is_prefix_of(n.signature@)
    }
}

proof fn lemma_prefix(s: Seq<char>, t: Seq<char>)
    ensures
        crate::text::starts_with(s, t) <==> t.is_prefix_of(s),
{
    if crate::text::starts_with(s, t) {
        assert(s.subrange(0, 0 + t.len() as int) =~= t);
        assert(t =~= s.subrange(0, t.len() as int));
    }
    if t.is_prefix_of(s) {
        assert(s.subrange(0, 0 + t.len() as int) =~= t);
    }
}

proof fn lemma_eligible(hits: Seq<Node>, kind: Seq<char>)
    ensures
        forall|n: Node| #[trigger]
            crate::graph::eligible(hits, kind).contains(n) <==> hits.contains(n) && may_start(n, kind),
    decreases hits.len(),
{
    if hits.len() > 0 {
        let p = hits.drop_last();
        let last = hits.last();
        lemma_eligible(p, kind);
        lemma_prefix(last.signature@, "scip:"@);
        let before = crate::graph::eligible(p, kind);
        assert(hits =~= p.push(last));
        assert(crate::graph::eligible(hits, kind) == (if may_start(last, kind) {
            before.push(last)
        } else {
            before
        }));
        assert forall|n: Node| #[trigger]
            crate::graph::eligible(hits, kind).contains(n) <==> hits.contains(n) && may_start(n, kind) by {
            crate::store::lemma_push_contains(p, last, n);
            crate::store::lemma_push_contains(before, last, n);
            assert(before.contains(n) <==> p.contains(n) && may_start(n, kind));
        }
    }
}

proof fn lemma_with_signature(nodes: Seq<Node>, s: Seq<char>)
    ensures
        forall|n: Node| #[trigger]
            crate::graph::with_signature(nodes, s).contains(n) <==> nodes.contains(n) && n.signature@ == s,
        forall|n: Node| #[trigger]
            crate::graph::with_name(nodes, s).contains(n) <==> nodes.contains(n)
                && crate::names::bare_name(n.signature@) == s,
    decreases nodes.len(),
{
    if nodes.len() > 0 {
        let p = nodes.drop_last();
        let last = nodes.last();
        lemma_with_signature(p, s);
        let a = crate::graph::with_signature(p, s);
        let b = crate::graph::with_name(p, s);
        assert(nodes =~= p.push(last));
        assert forall|n: Node| #[trigger]
            crate::graph::with_signature(nodes, s).contains(n) <==> nodes.contains(n) && n.signature@
            == s by {
            crate::store::lemma_push_contains(p, last, n);
            crate::store::lemma_push_contains(a, last, n);
            assert(a.contains(n) <==> p.contains(n) && n.signature@ == s);
        }
        assert forall|n: Node| #[trigger]
            crate::graph::with_name(nodes, s).contains(n) <==> nodes.contains(n)
            && crate::names::bare_name(n.signature@) == s by {
            crate::store::lemma_push_contains(p, last, n);
            crate::store::lemma_push_contains(b, last, n);
            assert(b.contains(n) <==> p.contains(n) && crate::names::bare_name(n.signature@) == s);
        }
    }
}

/// A walk starts from the hits with the signature that was asked for, where there are any; else from those with that name; else, or
/// where a kind is wanted, from all.
pub proof fn law_walk_starts_from_the_best_hits(hits: Seq<Node>, query: Seq<char>, kind: Seq<char>, n: Node)
    requires
        hits.contains(n),
        may_start(n, kind),
    ensures
        kind.len() > 0 || query.len() == 0 ==> crate::graph::roots(hits, query, kind).contains(n),
        n.signature@ == query ==> crate::graph::roots(hits, query, kind).contains(n),
        kind.len() == 0 && query.len() > 0 && n.signature@ == query ==> forall|m: Node| #[trigger]
            crate::graph::roots(hits, query, kind).contains(m) ==> m.signature@ == query,
        kind.len() == 0 && query.len() > 0 && crate::names::bare_name(n.signature@) == query && (forall|
            m: Node,
        | #[trigger]
            hits.contains(m) && may_start(m, kind) ==> m.signature@ != query) ==> crate::graph::roots(
            hits,
            query,
            kind,
        ).contains(n),
{
    let all = crate::graph::eligible(hits, kind);
    lemma_eligible(hits, kind);
    lemma_with_signature(all, query);
    let exact = crate::graph::with_signature(all, query);
    let named = crate::graph::with_name(all, query);
    assert(all.contains(n));
    if n.signature@ == query {
        assert(exact.contains(n));
    }
    if kind.len() == 0 && query.len() > 0 && crate::names::bare_name(n.signature@) == query && (forall|
        m: Node,
    | #[trigger]
        hits.contains(m) && may_start(m, kind) ==> m.signature@ != query) {
        assert(named.contains(n));
        if exact.len() > 0 {
            assert(exact.contains(exact[0]));
            assert(all.contains(exact[0]));
            assert(hits.contains(exact[0]));
        }
    }
}

// ---------------------------------------------------------------- what is told of a node

/// The drawn node tells of the node of the graph, at a distance.
pub open spec fn tells(nv: NodeView, n: Node, hop: nat) -> bool {
    &&& nv.id == json_id(n)
    &&& nv.label == crate::graph::json_label(n)
    &&& nv.kind == n.kind@
    &&& nv.path == n.path@
    &&& nv.package == n.package@
    &&& nv.line == n.line
    &&& nv.hop == hop
}

/// Where a reached node comes from: a starting node, or a node one step nearer whose links lead to it.
pub open spec fn is_reached_from(
    store: Store,
    q: Request,
    roots: Seq<Node>,
    w: WalkView,
    j: int,
) -> bool {
    if w.queue[j].1 == 0 {
        exists|r: int| 0 <= r < roots.len() && (#[trigger] roots[r]).id == w.queue[j].0
    } else {
        exists|i: int, t: int|
            0 <= i < j && w.queue[i].1 + 1 == w.queue[j].1 && w.queue[i].1 < q.depth && 0 <= t < links(
                store,
                q,
                w.queue[i].0,
                w.queue[i].1,
            ).len() && (#[trigger] links(store, q, w.queue[i].0, w.queue[i].1)[t]).next == w.queue[j].0
    }
}

/// The drawn node tells of one that was reached.
spec fn is_from(store: Store, q: Request, queue: Seq<(u64, nat, bool)>, nv: NodeView) -> bool {
    exists|j: int|
        0 <= j < queue.len() && (store.node((#[trigger] queue[j]).0) matches Some(n) && tells(
            nv,
            n,
            queue[j].1,
        ) && !is_skipped(q, n, queue[j].1))
}

/// What is drawn after the first `k` nodes, and where what was reached comes from.
spec fn is_told(store: Store, q: Request, roots: Seq<Node>, w: WalkView) -> bool {
    &&& forall|i: int| 0 <= i < w.nodes.len() ==> is_from(store, q, w.queue, #[trigger] w.nodes[i])
    &&& forall|j: int|
        0 <= j < w.queue.len() ==> #[trigger] is_reached_from(store, q, roots, w, j)
    &&& forall|j: int| 0 <= j < w.queue.len() ==> (#[trigger] w.queue[j]).1 <= q.depth
}

proof fn lemma_take_links_from(
    store: Store,
    q: Request,
    roots: Seq<Node>,
    w: WalkView,
    ls: Seq<Link>,
    m: int,
    n: int,
)
    requires
        0 <= m < w.queue.len(),
        w.queue[m].1 < q.depth,
        ls == links(store, q, w.queue[m].0, w.queue[m].1),
        0 <= n <= ls.len(),
        forall|j: int| 0 <= j < w.queue.len() ==> #[trigger] is_reached_from(store, q, roots, w, j),
        forall|j: int| 0 <= j < w.queue.len() ==> (#[trigger] w.queue[j]).1 <= q.depth,
    ensures
        ({
            let g = take_links(store, w, ls.take(n), w.queue[m].1 + 1);
            &&& g.nodes == w.nodes
            &&& w.queue.len() <= g.queue.len()
            &&& forall|i: int| 0 <= i < w.queue.len() ==> #[trigger] g.queue[i] == w.queue[i]
            &&& forall|j: int| 0 <= j < g.queue.len() ==> #[trigger] is_reached_from(store, q, roots, g, j)
            &&& forall|j: int| 0 <= j < g.queue.len() ==> (#[trigger] g.queue[j]).1 <= q.depth
        }),
    decreases n,
{
    let hop = w.queue[m].1 + 1;
    let g = take_links(store, w, ls.take(n), hop);
    if n == 0 {
        assert(ls.take(0) =~= Seq::<Link>::empty());
    } else {
        lemma_take_links_from(store, q, roots, w, ls, m, n - 1);
        assert(ls.take(n).drop_last() =~= ls.take(n - 1));
        let p = take_links(store, w, ls.take(n - 1), hop);
        let l = ls[n - 1];
        assert(ls.take(n).last() == l);
        assert(g == take_link(store, p, l, hop));
        assert forall|j: int| 0 <= j < g.queue.len() implies #[trigger] is_reached_from(
            store,
            q,
            roots,
            g,
            j,
        ) by {
            if j < p.queue.len() {
                assert(is_reached_from(store, q, roots, p, j));
                assert(g.queue[j] == p.queue[j]);
                if p.queue[j].1 != 0 {
                    let (i, t) = choose|i: int, t: int|
                        0 <= i < j && p.queue[i].1 + 1 == p.queue[j].1 && p.queue[i].1 < q.depth && 0 <= t
                            < links(store, q, p.queue[i].0, p.queue[i].1).len() && (#[trigger] links(
                            store,
                            q,
                            p.queue[i].0,
                            p.queue[i].1,
                        )[t]).next == p.queue[j].0;
                    assert(g.queue[i] == p.queue[i]);
                    assert(links(store, q, g.queue[i].0, g.queue[i].1)[t].next == g.queue[j].0);
                }
            } else {
                assert(g.queue[m] == w.queue[m]);
                assert(links(store, q, g.queue[m].0, g.queue[m].1)[n - 1].next == g.queue[j].0);
            }
        }
    }
}

proof fn lemma_told(store: Store, q: Request, roots: Seq<Node>, k: nat)
    ensures
        is_told(store, q, roots, after(store, q, roots, k)),
    decreases k,
{
    if k == 0 {
        lemma_start_has_no_edges(roots);
        lemma_start_reached(roots);
        lemma_start_from(store, q, roots);
    } else {
        lemma_told(store, q, roots, (k - 1) as nat);
        let w = after(store, q, roots, (k - 1) as nat);
        let g = after(store, q, roots, k);
        if k - 1 < w.queue.len() {
            let (id, hop, expand) = w.queue[k - 1];
            if let Some(n) = store.node(id) {
                let d = WalkView {
                    nodes: w.nodes.push(crate::graph::node_view(n, hop)),
                    used: w.used + n.token_cost as nat,
                    ..w
                };
                let ls = links(store, q, id, hop);
                assert forall|j: int| 0 <= j < d.queue.len() implies #[trigger] is_reached_from(
                    store,
                    q,
                    roots,
                    d,
                    j,
                ) by {
                    assert(is_reached_from(store, q, roots, w, j));
                }
                if hop < q.depth {
                    lemma_take_links_from(store, q, roots, d, ls, k - 1, ls.len() as int);
                    assert(ls.take(ls.len() as int) =~= ls);
                }
                if g.nodes.len() > w.nodes.len() {
                    assert(g.nodes == d.nodes);
                    assert forall|i: int| 0 <= i < g.nodes.len() implies is_from(
                        store,
                        q,
                        g.queue,
                        #[trigger] g.nodes[i],
                    ) by {
                        if i < w.nodes.len() {
                            assert(g.nodes[i] == w.nodes[i]);
                            assert(is_from(store, q, w.queue, w.nodes[i]));
                            let j = choose|j: int|
                                0 <= j < w.queue.len() && (store.node((#[trigger] w.queue[j]).0) matches Some(
                                    m,
                                ) && tells(w.nodes[i], m, w.queue[j].1) && !is_skipped(
                                    q,
                                    m,
                                    w.queue[j].1,
                                ));
                            assert(g.queue[j] == w.queue[j]);
                        } else {
                            assert(g.queue[k - 1] == w.queue[k - 1]);
                            assert(tells(g.nodes[i], n, g.queue[k - 1].1));
                        }
                    }
                } else {
                    lemma_told_same(store, q, roots, w, g);
                }
            } else {
                lemma_told_same(store, q, roots, w, g);
            }
        } else {
            lemma_told_same(store, q, roots, w, g);
        }
    }
}

proof fn lemma_told_same(store: Store, q: Request, roots: Seq<Node>, w: WalkView, g: WalkView)
    requires
        is_told(store, q, roots, w),
        g.nodes == w.nodes,
        g.queue == w.queue,
    ensures
        is_told(store, q, roots, g),
{
    assert forall|j: int| 0 <= j < g.queue.len() implies #[trigger] is_reached_from(
        store,
        q,
        roots,
        g,
        j,
    ) by {
        assert(is_reached_from(store, q, roots, w, j));
    }
    assert forall|i: int| 0 <= i < g.nodes.len() implies is_from(store, q, g.queue, #[trigger] g.nodes[i]) by {
        assert(is_from(store, q, w.queue, w.nodes[i]));
    }
}

proof fn lemma_start_from(store: Store, q: Request, roots: Seq<Node>)
    ensures
        forall|j: int|
            0 <= j < start(roots).queue.len() ==> #[trigger] is_reached_from(
                store,
                q,
                roots,
                start(roots),
                j,
            ),
    decreases roots.len(),
{
    lemma_start_reached(roots);
    if roots.len() > 0 {
        let p = roots.drop_last();
        lemma_start_from(store, q, p);
        lemma_start_reached(p);
        let w = start(p);
        let g = start(roots);
        assert forall|j: int| 0 <= j < g.queue.len() implies #[trigger] is_reached_from(
            store,
            q,
            roots,
            g,
            j,
        ) by {
            assert(g.queue[j].1 == 0);
            if j < w.queue.len() {
                assert(g.queue[j] == w.queue[j]);
                assert(is_reached_from(store, q, p, w, j));
                let r = choose|r: int| 0 <= r < p.len() && (#[trigger] p[r]).id == w.queue[j].0;
                assert(roots[r] == p[r]);
            } else {
                assert(roots[roots.len() - 1].id == g.queue[j].0);
            }
        }
    }
}

/// The drawn node at `i` tells of the node that was reached at `j`.
pub open spec fn is_drawn_from(
    store: Store,
    q: Request,
    roots: Seq<Node>,
    w: WalkView,
    i: int,
    j: int,
) -> bool {
    &&& 0 <= j < w.queue.len()
    &&& store.node(w.queue[j].0) matches Some(n) && tells(w.nodes[i], n, w.queue[j].1) && !is_skipped(
        q,
        n,
        w.queue[j].1,
    )
    &&& is_reached_from(store, q, roots, w, j)
    &&& w.queue[j].1 <= q.depth
}

/// Every drawn node tells of a node of the graph that was reached, with its distance from the starting nodes: a starting node has
/// none, any other is one step farther than a node that leads to it, and none is farther than was asked for.
pub proof fn law_drawn_nodes_are_nodes_of_the_graph(store: Store, q: Request, roots: Seq<Node>, i: int)
    requires
        0 <= i < walked(store, q, roots).nodes.len(),
    ensures
        exists|j: int| #[trigger] is_drawn_from(store, q, roots, walked(store, q, roots), i, j),
{
    let w = walked(store, q, roots);
    lemma_told(store, q, roots, choose|k: nat| is_done(store, q, roots, k));
    assert(is_from(store, q, w.queue, w.nodes[i]));
    let j = choose|j: int|
        0 <= j < w.queue.len() && (store.node((#[trigger] w.queue[j]).0) matches Some(n) && tells(
            w.nodes[i],
            n,
            w.queue[j].1,
        ) && !is_skipped(q, n, w.queue[j].1));
    assert(is_reached_from(store, q, roots, w, j));
    assert(w.queue[j].1 <= q.depth);
    assert(is_drawn_from(store, q, roots, w, i, j));
}

} // verus!
