//! What searches, roles, citations and traces show.

use vstd::prelude::*;

use crate::docs::{carved, cited, close, Docs, DocCandidate, DocLane};
use crate::lines::holds;
use crate::roles::{first_link, link, role, NodeRole};
use crate::sections::EntryView;
use crate::seeds::{
    callers, eligible, enriched, first, has_id, heaviest, merged, merged_weight, text_seeds, KnnHit,
    Weighted,
};
use crate::store::{Edge, EdgeKind, Node, Store};
use crate::trace::{numbered, seed_lines, Row, SeedRow};

verus! {

// ---------------------------------------------------------------- by weight

/// A list ordered by weight holds every node of the list, and none with less weight before one with more.
pub proof fn law_heaviest_come_first(v: Seq<Weighted>)
    ensures
        heaviest(v).len() == v.len(),
        forall|w: Weighted| #[trigger] heaviest(v).contains(w) <==> v.contains(w),
        forall|i: int, j: int|
            0 <= i < j < heaviest(v).len() ==> (#[trigger] heaviest(v)[i]).weight >= (
            #[trigger] heaviest(v)[j]).weight,
{
    let keys = crate::seeds::weight_keys(v);
    crate::rank::lemma_order(keys);
    let o = crate::rank::order_of(keys);
    let h = heaviest(v);
    crate::order::lemma_before_irreflexive(Seq::<char>::empty());
    assert forall|w: Weighted| #[trigger] h.contains(w) <==> v.contains(w) by {
        if h.contains(w) {
            let i = choose|i: int| 0 <= i < h.len() && h[i] == w;
            assert(v[o[i]] == w);
        }
        if v.contains(w) {
            let k = choose|k: int| 0 <= k < v.len() && v[k] == w;
            assert(o.contains(k));
            let i = choose|i: int| 0 <= i < o.len() && o[i] == k;
            assert(h[i] == w);
        }
    }
    assert forall|i: int, j: int| 0 <= i < j < h.len() implies (#[trigger] h[i]).weight >= (
    #[trigger] h[j]).weight by {
        assert(crate::rank::ranks(keys, o[i], o[j]));
    }
}

// ---------------------------------------------------------------- semantic hits

proof fn lemma_eligible_grows(store: Store, hits: Seq<KnnHit>, denied: Seq<u64>, n: int)
    requires
        0 <= n <= hits.len(),
    ensures
        eligible(store, hits.take(n), denied).len() <= eligible(store, hits, denied).len(),
        forall|k: int|
            0 <= k < eligible(store, hits.take(n), denied).len() ==> #[trigger] eligible(
                store,
                hits.take(n),
                denied,
            )[k] == eligible(store, hits, denied)[k],
    decreases hits.len(),
{
    if n < hits.len() {
        lemma_eligible_grows(store, hits.drop_last(), denied, n);
        assert(hits.drop_last().take(n) =~= hits.take(n));
    } else {
        assert(hits.take(n) =~= hits);
    }
}

/// How many of the hits are nodes of a file.
pub open spec fn hits_in(store: Store, hits: Seq<KnnHit>, path: Seq<char>) -> nat {
    hits.filter(|h: KnnHit| store.node(h.id) matches Some(m) && m.path@ == path).len()
}

/// A hit of the semantic search is a seed exactly where its node is in the graph, may be seen and is an answer, no two
/// seeds before it are of its file, and it is above the floor or among the first five.
pub proof fn law_hits_are_seeds(store: Store, hits: Seq<KnnHit>, denied: Seq<u64>, i: int)
    requires
        0 <= i < hits.len(),
    ensures
        ({
            let before = eligible(store, hits.take(i), denied);
            let upto = eligible(store, hits.take(i + 1), denied);
            let all = eligible(store, hits, denied);
            &&& match store.node(hits[i].id) {
                Some(n) => if !crate::noise::result_noise(n) && !denied.contains(hits[i].id) && (
                before.len() < 5 || hits[i].clears_floor) && hits_in(store, before, n.path@) < 2 {
                    upto == before.push(hits[i]) && all.contains(hits[i])
                } else {
                    upto == before
                },
                None => upto == before,
            }
        }),
{
    let p = hits.take(i + 1);
    let before = eligible(store, hits.take(i), denied);
    assert(p.drop_last() =~= hits.take(i));
    assert(p.last() == hits[i]);
    if let Some(n) = store.node(hits[i].id) {
        lemma_from_path(store, before, n.path@);
        let upto = eligible(store, p, denied);
        lemma_eligible_grows(store, hits, denied, i + 1);
        if upto == before.push(hits[i]) {
            assert(upto[before.len() as int] == hits[i]);
            assert(eligible(store, hits, denied)[before.len() as int] == hits[i]);
        }
    }
}

proof fn lemma_from_path(store: Store, hits: Seq<KnnHit>, path: Seq<char>)
    ensures
        crate::seeds::from_path(store, hits, path) == hits_in(store, hits, path),
    decreases hits.len(),
{
    reveal(Seq::filter);
    if hits.len() > 0 {
        lemma_from_path(store, hits.drop_last(), path);
    }
}

// ---------------------------------------------------------------- textual hits

/// A query without a dot whose hits may all be seeds gives the first five of them, with a full weight for hits by name, scaled
/// by their kind.
pub proof fn law_named_hits_are_seeds(
    store: Store,
    query: Seq<char>,
    denied: Seq<u64>,
    hits: Seq<Node>,
    i: int,
)
    requires
        !query.contains('.'),
        store.name_hits(query) == Some(hits),
        forall|j: int|
            0 <= j < hits.len() ==> !(#[trigger] hits[j]).is_noise && !denied.contains(hits[j].id),
        0 <= i < hits.len(),
        i < 5,
    ensures
        i < text_seeds(store, query, denied).len(),
        text_seeds(store, query, denied)[i].id == hits[i].id,
        text_seeds(store, query, denied)[i].weight == 10_000_000 * crate::noise::boost(
            hits[i].kind@,
            hits[i].language@,
        ),
        text_seeds(store, query, denied).len() <= 5,
{
    lemma_no_dot(query);
    let (qualifier, name) = crate::seeds::qualified_name(query);
    assert(qualifier =~= Seq::<char>::empty());
    assert(name == query);
    let p = crate::seeds::seedable(qualifier, denied);
    assert forall|j: int| 0 <= j < hits.len() implies p(#[trigger] hits[j]) by {
        let s = hits[j].signature@;
        crate::text::lemma_contains(s, qualifier);
        assert(s.subrange(0, 0) =~= qualifier);
        assert(crate::text::matches_at(s, qualifier, 0));
        assert(!hits[j].is_noise && !denied.contains(hits[j].id));
    }
    lemma_kept_all(hits, p);
    let b = crate::noise::boost(hits[i].kind@, hits[i].language@);
    assert(1_000_000_000 * b / 100 == 10_000_000 * b) by (nonlinear_arith);
}

proof fn lemma_no_dot(query: Seq<char>)
    requires
        !query.contains('.'),
    ensures
        crate::names::dotted(query) is None,
    decreases query.len(),
{
    lemma_no_last(query, '.');
}

proof fn lemma_no_last(s: Seq<char>, c: char)
    requires
        !s.contains(c),
    ensures
        crate::text::last_of(s, c, c) is None,
    decreases s.len(),
{
    if s.len() > 0 {
        let p = s.drop_last();
        assert(s[s.len() - 1] != c);
        assert forall|i: int| 0 <= i < p.len() implies p[i] != c by {
            assert(s[i] != c);
        }
        lemma_no_last(p, c);
    }
}

proof fn lemma_kept_all(nodes: Seq<Node>, p: spec_fn(Node) -> bool)
    requires
        forall|j: int| 0 <= j < nodes.len() ==> p(#[trigger] nodes[j]),
    ensures
        crate::store::kept(nodes, p) == nodes,
    decreases nodes.len(),
{
    if nodes.len() > 0 {
        let q = nodes.drop_last();
        assert forall|j: int| 0 <= j < q.len() implies p(#[trigger] q[j]) by {
            assert(q[j] == nodes[j]);
        }
        lemma_kept_all(q, p);
        assert(p(nodes[nodes.len() - 1]));
        assert(q.push(nodes.last()) =~= nodes);
    } else {
        assert(crate::store::kept(nodes, p) =~= nodes);
    }
}

// ---------------------------------------------------------------- two lists of seeds

proof fn lemma_distinct(v: Seq<Weighted>)
    ensures
        forall|id: u64| #[trigger] crate::seeds::distinct_ids(v).contains(id) <==> has_id(v, id),
        crate::seeds::distinct_ids(v).no_duplicates(),
    decreases v.len(),
{
    if v.len() > 0 {
        let p = v.drop_last();
        let d = crate::seeds::distinct_ids(p);
        lemma_distinct(p);
        assert forall|id: u64| #[trigger] crate::seeds::distinct_ids(v).contains(id) <==> has_id(v, id) by {
            crate::store::lemma_push_contains(d, v.last().id, id);
            assert(d.contains(id) <==> has_id(p, id));
            if has_id(p, id) {
                let i = choose|i: int| 0 <= i < p.len() && (#[trigger] p[i]).id == id;
                assert(v[i].id == id);
            }
            if has_id(v, id) {
                let i = choose|i: int| 0 <= i < v.len() && (#[trigger] v[i]).id == id;
                if i < p.len() {
                    assert(p[i].id == id);
                }
            }
            if v.last().id == id {
                assert(v[v.len() - 1].id == id);
            }
        }
        if !d.contains(v.last().id) {
            let e = d.push(v.last().id);
            assert forall|i: int, j: int| 0 <= i < e.len() && 0 <= j < e.len() && i != j implies e[i] != e[j] by {
                if i < d.len() {
                    assert(d.contains(d[i]));
                }
                if j < d.len() {
                    assert(d.contains(d[j]));
                }
            }
        }
    }
}

proof fn lemma_top_weight(v: Seq<Weighted>, i: int)
    requires
        0 <= i < v.len(),
    ensures
        crate::seeds::top_weight(v, v[i].id) >= v[i].weight,
    decreases v.len(),
{
    let p = v.drop_last();
    if i < p.len() {
        lemma_top_weight(p, i);
        assert(p[i] == v[i]);
    }
}

proof fn lemma_last_weight(v: Seq<Weighted>, i: int)
    requires
        0 <= i < v.len(),
        forall|j: int| i < j < v.len() ==> (#[trigger] v[j]).id != v[i].id,
    ensures
        crate::seeds::last_weight(v, v[i].id) == v[i].weight,
    decreases v.len(),
{
    if i < v.len() - 1 {
        let p = v.drop_last();
        assert(v[v.len() - 1].id != v[i].id);
        assert forall|j: int| i < j < p.len() implies (#[trigger] p[j]).id != p[i].id by {
            assert(p[j] == v[j]);
        }
        lemma_last_weight(p, i);
    }
}

/// Two lists put together hold every node of either once, with no less weight than either gives it.
pub proof fn law_merged_seeds_keep_the_larger_weight(fts: Seq<Weighted>, knn: Seq<Weighted>)
    ensures
        forall|id: u64| #[trigger] has_id(merged(fts, knn), id) <==> has_id(fts, id) || has_id(knn, id),
        forall|i: int, j: int|
            0 <= i < j < merged(fts, knn).len() ==> (#[trigger] merged(fts, knn)[i]).id != (
            #[trigger] merged(fts, knn)[j]).id,
        forall|i: int| 0 <= i < knn.len() ==> merged_weight(fts, knn, (#[trigger] knn[i]).id) >= knn[i].weight,
        forall|i: int|
            0 <= i < fts.len() && (forall|j: int| i < j < fts.len() ==> (#[trigger] fts[j]).id != fts[i].id)
                ==> merged_weight(fts, knn, (#[trigger] fts[i]).id) >= fts[i].weight,
{
    let all = fts + knn;
    let ids = crate::seeds::distinct_ids(all);
    let m = merged(fts, knn);
    lemma_distinct(all);
    assert forall|id: u64| #[trigger] has_id(m, id) <==> has_id(fts, id) || has_id(knn, id) by {
        assert(ids.contains(id) <==> has_id(all, id));
        if has_id(fts, id) {
            let i = choose|i: int| 0 <= i < fts.len() && (#[trigger] fts[i]).id == id;
            assert(all[i].id == id);
        }
        if has_id(knn, id) {
            let i = choose|i: int| 0 <= i < knn.len() && (#[trigger] knn[i]).id == id;
            assert(all[fts.len() + i].id == id);
        }
        if has_id(all, id) {
            let i = choose|i: int| 0 <= i < all.len() && (#[trigger] all[i]).id == id;
            if i < fts.len() {
                assert(fts[i].id == id);
            } else {
                assert(knn[i - fts.len()].id == id);
            }
            let k = choose|k: int| 0 <= k < ids.len() && ids[k] == id;
            assert(m[k].id == id);
        }
        if has_id(m, id) {
            let k = choose|k: int| 0 <= k < m.len() && (#[trigger] m[k]).id == id;
            assert(ids[k] == id);
        }
    }
    assert forall|i: int| 0 <= i < knn.len() implies merged_weight(fts, knn, (#[trigger] knn[i]).id)
        >= knn[i].weight by {
        lemma_top_weight(knn, i);
    }
    assert forall|i: int|
        0 <= i < fts.len() && (forall|j: int| i < j < fts.len() ==> (#[trigger] fts[j]).id != fts[i].id) implies merged_weight(
        fts,
        knn,
        (#[trigger] fts[i]).id,
    ) >= fts[i].weight by {
        lemma_last_weight(fts, i);
    }
}

// ---------------------------------------------------------------- callers of seeds

proof fn lemma_callers_has(store: Store, edges: Seq<Edge>, seeds: Seq<Weighted>, i: int, n: Node)
    requires
        0 <= i < edges.len(),
        edges[i].kind == EdgeKind::RefCall,
        store.node(edges[i].src) == Some(n),
        crate::seeds::production(n),
        !has_id(seeds, edges[i].src),
    ensures
        callers(store, edges, seeds).contains(edges[i].src),
    decreases edges.len(),
{
    let p = edges.drop_last();
    let c = callers(store, p, seeds);
    crate::store::lemma_push_contains(c, edges.last().src, edges[i].src);
    if i < p.len() {
        assert(p[i] == edges[i]);
        lemma_callers_has(store, p, seeds, i, n);
    }
}

proof fn lemma_additions_has(store: Store, seeds: Seq<Weighted>, n: int, s: int, x: Weighted)
    requires
        0 <= s < n <= seeds.len(),
        crate::seeds::additions(store, seeds[s], seeds).contains(x),
    ensures
        crate::seeds::all_additions(store, seeds, n).contains(x),
    decreases n,
{
    crate::graph_laws::lemma_concat_contains(
        crate::seeds::all_additions(store, seeds, n - 1),
        crate::seeds::additions(store, seeds[n - 1], seeds),
        x,
    );
    if s < n - 1 {
        lemma_additions_has(store, seeds, n - 1, s, x);
    }
}

proof fn lemma_fresh_has(seeds: Seq<Weighted>, more: Seq<Weighted>, i: int)
    requires
        0 <= i < more.len(),
        !has_id(seeds, more[i].id),
    ensures
        has_id(crate::seeds::fresh(seeds, more), more[i].id),
    decreases more.len(),
{
    let p = more.drop_last();
    let f = crate::seeds::fresh(seeds, p);
    let g = crate::seeds::fresh(seeds, more);
    if i < p.len() {
        assert(p[i] == more[i]);
        lemma_fresh_has(seeds, p, i);
        let k = choose|k: int| 0 <= k < f.len() && (#[trigger] f[k]).id == more[i].id;
        assert(g[k].id == more[i].id);
    } else if !has_id(f, more[i].id) {
        assert(g[g.len() - 1].id == more[i].id);
    }
}

/// Every caller of a seed that is no test, no benchmark and no noise becomes a seed too, where the seed has no more than five and
/// no more are added than may be.
pub proof fn law_callers_of_seeds_become_seeds(
    store: Store,
    seeds: Seq<Weighted>,
    max_new: nat,
    s: int,
    i: int,
    n: Node,
)
    requires
        0 <= s < seeds.len(),
        !store.unread_incoming@.contains(seeds[s].id),
        0 <= i < store.edges@.len(),
        store.edges@[i].dst == seeds[s].id,
        store.edges@[i].kind == EdgeKind::RefCall,
        store.node(store.edges@[i].src) == Some(n),
        !n.is_noise,
        !crate::text::contains(n.path@, "/tests/"@) && !crate::text::contains(n.path@, "/benches/"@),
        !crate::text::starts_with(n.signature@, "fn:test_"@) && !crate::text::starts_with(
            n.signature@,
            "fn:bench_"@,
        ) && !crate::text::starts_with(n.signature@, "fn:prop_"@),
        callers(store, store.arriving(seeds[s].id), seeds).len() <= 5,
        crate::seeds::fresh(
            seeds,
            heaviest(crate::seeds::all_additions(store, seeds, seeds.len() as int)),
        ).len() <= max_new,
    ensures
        has_id(enriched(store, seeds, max_new), store.edges@[i].src),
{
    let x = store.edges@[i].src;
    let e = enriched(store, seeds, max_new);
    if has_id(seeds, x) {
        let k = choose|k: int| 0 <= k < seeds.len() && (#[trigger] seeds[k]).id == x;
        assert(e[k].id == x);
    } else {
        let es = store.arriving(seeds[s].id);
        crate::store::lemma_entering(store.edges@, seeds[s].id);
        assert(es.contains(store.edges@[i]));
        let j = choose|j: int| 0 <= j < es.len() && es[j] == store.edges@[i];
        lemma_callers_has(store, es, seeds, j, n);
        let ids = callers(store, es, seeds);
        let keys = crate::seeds::degree_keys(store, ids);
        crate::rank::lemma_order(keys);
        let o = crate::rank::order_of(keys);
        let k = choose|k: int| 0 <= k < ids.len() && ids[k] == x;
        assert(o.contains(k));
        let t = choose|t: int| 0 <= t < o.len() && o[t] == k;
        let top = crate::seeds::top_callers(store, seeds[s].id, seeds);
        assert(top[t] == x);
        let own = crate::seeds::additions(store, seeds[s], seeds);
        let w = own[t];
        assert(w.id == x);
        assert(own.contains(w));
        let all = crate::seeds::all_additions(store, seeds, seeds.len() as int);
        lemma_additions_has(store, seeds, seeds.len() as int, s, w);
        law_heaviest_come_first(all);
        let h = heaviest(all);
        assert(h.contains(w));
        let q = choose|q: int| 0 <= q < h.len() && h[q] == w;
        lemma_fresh_has(seeds, h, q);
        let f = crate::seeds::fresh(seeds, h);
        let r = choose|r: int| 0 <= r < f.len() && (#[trigger] f[r]).id == x;
        assert(first(f, max_new) == f);
        assert(e[seeds.len() + r].id == x);
    }
}

// ---------------------------------------------------------------- roles

/// The edge is a call, a dependency or an import.
pub open spec fn is_usage(e: Edge) -> bool {
    e.kind == EdgeKind::RefCall || e.kind == EdgeKind::Depends || e.kind == EdgeKind::RefImports
}

proof fn lemma_leaving(edges: Seq<Edge>, id: u64)
    ensures
        forall|e: Edge| #[trigger]
            crate::store::leaving(edges, id).contains(e) <==> edges.contains(e) && e.src == id,
    decreases edges.len(),
{
    if edges.len() > 0 {
        let p = edges.drop_last();
        lemma_leaving(p, id);
        assert(edges =~= p.push(edges.last()));
        assert forall|e: Edge| #[trigger]
            crate::store::leaving(edges, id).contains(e) <==> edges.contains(e) && e.src == id by {
            crate::store::lemma_push_contains(p, edges.last(), e);
            crate::store::lemma_push_contains(crate::store::leaving(p, id), edges.last(), e);
            assert(crate::store::leaving(p, id).contains(e) <==> p.contains(e) && e.src == id);
        }
    }
}

/// What a seed uses is its dependency; what uses a seed, without being used by it, is a caller of it.
pub proof fn law_roles_follow_the_edges(store: Store, seed: u64, id: u64)
    ensures
        (exists|i: int|
            0 <= i < store.edges@.len() && (#[trigger] store.edges@[i]).src == seed && store.edges@[i].dst
                == id && is_usage(store.edges@[i])) <==> link(store, seed, id) == Some(
            NodeRole::Dependency,
        ),
        link(store, seed, id) == Some(NodeRole::Caller) <==> !store.unread_incoming@.contains(seed) && (
        exists|i: int|
            0 <= i < store.edges@.len() && (#[trigger] store.edges@[i]).src == id && store.edges@[i].dst
                == seed && is_usage(store.edges@[i])) && !(exists|i: int|
            0 <= i < store.edges@.len() && (#[trigger] store.edges@[i]).src == seed && store.edges@[i].dst
                == id && is_usage(store.edges@[i])),
{
    let out = crate::store::leaving(store.edges@, seed);
    let back = store.arriving(seed);
    lemma_leaving(store.edges@, seed);
    crate::store::lemma_entering(store.edges@, seed);
    if exists|i: int|
        0 <= i < store.edges@.len() && (#[trigger] store.edges@[i]).src == seed && store.edges@[i].dst
            == id && is_usage(store.edges@[i]) {
        let i = choose|i: int|
            0 <= i < store.edges@.len() && (#[trigger] store.edges@[i]).src == seed
                && store.edges@[i].dst == id && is_usage(store.edges@[i]);
        assert(out.contains(store.edges@[i]));
        let j = choose|j: int| 0 <= j < out.len() && out[j] == store.edges@[i];
        assert(crate::roles::shows_use(out[j], id));
    }
    if exists|i: int| 0 <= i < out.len() && crate::roles::shows_use(#[trigger] out[i], id) {
        let j = choose|j: int| 0 <= j < out.len() && crate::roles::shows_use(#[trigger] out[j], id);
        assert(out.contains(out[j]));
        let i = choose|i: int| 0 <= i < store.edges@.len() && store.edges@[i] == out[j];
        assert(is_usage(store.edges@[i]));
    }
    if !store.unread_incoming@.contains(seed) && exists|i: int|
        0 <= i < store.edges@.len() && (#[trigger] store.edges@[i]).src == id && store.edges@[i].dst
            == seed && is_usage(store.edges@[i]) {
        let i = choose|i: int|
            0 <= i < store.edges@.len() && (#[trigger] store.edges@[i]).src == id && store.edges@[i].dst
                == seed && is_usage(store.edges@[i]);
        assert(back.contains(store.edges@[i]));
        let j = choose|j: int| 0 <= j < back.len() && back[j] == store.edges@[i];
        assert(crate::roles::shows_caller(back[j], id));
    }
    if exists|i: int| 0 <= i < back.len() && crate::roles::shows_caller(#[trigger] back[i], id) {
        let j = choose|j: int| 0 <= j < back.len() && crate::roles::shows_caller(#[trigger] back[j], id);
        assert(back.contains(back[j]));
        let i = choose|i: int| 0 <= i < store.edges@.len() && store.edges@[i] == back[j];
        assert(is_usage(store.edges@[i]));
    }
}

proof fn lemma_first_link(store: Store, seeds: Seq<Weighted>, id: u64, k: int)
    requires
        0 <= k < seeds.len(),
        link(store, seeds[k].id, id) is Some,
        forall|j: int| 0 <= j < k ==> link(store, (#[trigger] seeds[j]).id, id) is None,
    ensures
        first_link(store, seeds, id) == Some((link(store, seeds[k].id, id)->0, seeds[k].id)),
    decreases seeds.len(),
{
    let p = seeds.drop_last();
    if k < p.len() {
        assert(p[k] == seeds[k]);
        assert forall|j: int| 0 <= j < k implies link(store, (#[trigger] p[j]).id, id) is None by {
            assert(p[j] == seeds[j]);
        }
        lemma_first_link(store, p, id, k);
    } else {
        assert forall|j: int| 0 <= j < p.len() implies link(store, (#[trigger] p[j]).id, id) is None by {
            assert(p[j] == seeds[j]);
        }
        lemma_no_link(store, p, id);
    }
}

proof fn lemma_no_link(store: Store, seeds: Seq<Weighted>, id: u64)
    requires
        forall|j: int| 0 <= j < seeds.len() ==> link(store, (#[trigger] seeds[j]).id, id) is None,
    ensures
        first_link(store, seeds, id) is None,
    decreases seeds.len(),
{
    if seeds.len() > 0 {
        let p = seeds.drop_last();
        assert forall|j: int| 0 <= j < p.len() implies link(store, (#[trigger] p[j]).id, id) is None by {
            assert(p[j] == seeds[j]);
        }
        lemma_no_link(store, p, id);
        assert(link(store, seeds[seeds.len() - 1].id, id) is None);
    }
}

/// A node that is no seed of the query has the role that its edges with the first seed that it is joined to give it; a node that
/// no edge joins to a seed is context.
pub proof fn law_role_is_by_the_first_joined_seed(
    store: Store,
    seeds: Seq<Weighted>,
    primary: Seq<u64>,
    id: u64,
    k: int,
)
    requires
        !primary.contains(id),
    ensures
        0 <= k < seeds.len() && link(store, seeds[k].id, id) is Some && (forall|j: int|
            0 <= j < k ==> link(store, (#[trigger] seeds[j]).id, id) is None) ==> role(
            store,
            seeds,
            primary,
            id,
        ) == link(store, seeds[k].id, id)->0 && (store.node(seeds[k].id) matches Some(n)
            ==> crate::roles::via(store, seeds, id) == Some(n.signature@)),
        (forall|j: int| 0 <= j < seeds.len() ==> link(store, (#[trigger] seeds[j]).id, id) is None) ==> role(
            store,
            seeds,
            primary,
            id,
        ) == NodeRole::Context,
{
    if 0 <= k < seeds.len() && link(store, seeds[k].id, id) is Some && (forall|j: int|
        0 <= j < k ==> link(store, (#[trigger] seeds[j]).id, id) is None) {
        lemma_first_link(store, seeds, id, k);
    }
    if forall|j: int| 0 <= j < seeds.len() ==> link(store, (#[trigger] seeds[j]).id, id) is None {
        lemma_no_link(store, seeds, id);
    }
}

// ---------------------------------------------------------------- citations

proof fn lemma_close(candidates: Seq<DocCandidate>)
    ensures
        forall|i: int|
            0 <= i < candidates.len() && (#[trigger] candidates[i]).clears_floor ==> close(
                candidates,
            ).contains(Weighted { id: candidates[i].id, weight: candidates[i].weight }),
        forall|w: Weighted| #[trigger]
            close(candidates).contains(w) ==> exists|i: int|
                0 <= i < candidates.len() && (#[trigger] candidates[i]).clears_floor && candidates[i].id
                    == w.id && candidates[i].weight == w.weight,
    decreases candidates.len(),
{
    if candidates.len() > 0 {
        let p = candidates.drop_last();
        let x = candidates.last();
        let c = close(p);
        let y = Weighted { id: x.id, weight: x.weight };
        lemma_close(p);
        assert forall|i: int|
            0 <= i < candidates.len() && (#[trigger] candidates[i]).clears_floor implies close(
            candidates,
        ).contains(Weighted { id: candidates[i].id, weight: candidates[i].weight }) by {
            crate::store::lemma_push_contains(
                c,
                y,
                Weighted { id: candidates[i].id, weight: candidates[i].weight },
            );
            if i < p.len() {
                assert(p[i] == candidates[i]);
            }
        }
        assert forall|w: Weighted| #[trigger] close(candidates).contains(w) implies exists|i: int|
            0 <= i < candidates.len() && (#[trigger] candidates[i]).clears_floor && candidates[i].id
                == w.id && candidates[i].weight == w.weight by {
            crate::store::lemma_push_contains(c, y, w);
            if c.contains(w) {
                let i = choose|i: int|
                    0 <= i < p.len() && (#[trigger] p[i]).clears_floor && p[i].id == w.id && p[i].weight
                        == w.weight;
                assert(candidates[i] == p[i]);
            } else {
                assert(candidates[candidates.len() - 1].clears_floor);
            }
        }
    }
}

/// Where the reranker is not asked, every section above the floor is cited, the closest first, as far as so many may be; and no other.
pub proof fn law_close_sections_are_cited(lane: DocLane)
    requires
        lane.confident || lane.scores is None,
    ensures
        forall|w: Weighted| #[trigger]
            cited(lane).contains(w) ==> exists|i: int|
                0 <= i < lane.candidates@.len() && (#[trigger] lane.candidates@[i]).clears_floor
                    && lane.candidates@[i].id == w.id && lane.candidates@[i].weight == w.weight,
        forall|i: int, j: int|
            0 <= i < j < cited(lane).len() ==> (#[trigger] cited(lane)[i]).weight >= (
            #[trigger] cited(lane)[j]).weight,
        lane.candidates@.len() <= lane.max_results ==> forall|i: int|
            0 <= i < lane.candidates@.len() && (#[trigger] lane.candidates@[i]).clears_floor ==> cited(
                lane,
            ).contains(
                Weighted { id: lane.candidates@[i].id, weight: lane.candidates@[i].weight },
            ),
        cited(lane).len() <= lane.max_results,
{
    let c = close(lane.candidates@);
    let h = heaviest(c);
    lemma_close(lane.candidates@);
    lemma_close_len(lane.candidates@);
    law_heaviest_come_first(c);
    assert forall|w: Weighted| #[trigger] cited(lane).contains(w) implies exists|i: int|
        0 <= i < lane.candidates@.len() && (#[trigger] lane.candidates@[i]).clears_floor
            && lane.candidates@[i].id == w.id && lane.candidates@[i].weight == w.weight by {
        let k = choose|k: int| 0 <= k < cited(lane).len() && cited(lane)[k] == w;
        assert(h[k] == w);
        assert(h.contains(w));
        assert(c.contains(w));
    }
    if lane.candidates@.len() <= lane.max_results {
        assert(cited(lane) == h);
        assert forall|i: int|
            0 <= i < lane.candidates@.len() && (#[trigger] lane.candidates@[i]).clears_floor implies cited(
            lane,
        ).contains(Weighted { id: lane.candidates@[i].id, weight: lane.candidates@[i].weight }) by {
            let w = Weighted { id: lane.candidates@[i].id, weight: lane.candidates@[i].weight };
            assert(c.contains(w));
            assert(h.contains(w));
        }
    }
}

proof fn lemma_close_len(candidates: Seq<DocCandidate>)
    ensures
        close(candidates).len() <= candidates.len(),
    decreases candidates.len(),
{
    if candidates.len() > 0 {
        lemma_close_len(candidates.drop_last());
    }
}

/// What entries cost together: a token per four bytes each, and one more.
pub open spec fn entries_cost(v: Seq<EntryView>) -> nat
    decreases v.len(),
{
    if v.len() == 0 {
        0
    } else {
        entries_cost(v.drop_last()) + (vstd::utf8::encode_utf8(v.last().line).len() / 4 + 1) as nat
    }
}

proof fn lemma_carved(all: Seq<EntryView>, k: int, budget: nat)
    requires
        0 <= k <= all.len(),
    ensures
        ({
            let d = carved(
                Docs { entries: all.take(k), tokens: entries_cost(all.take(k)) },
                all.skip(k),
                budget,
            );
            let m = d.entries.len() as int;
            &&& k <= m <= all.len()
            &&& d.entries == all.take(m)
            &&& d.tokens == entries_cost(all.take(m))
            &&& m < all.len() ==> entries_cost(all.take(m + 1)) > budget
        }),
    decreases all.len() - k,
{
    if k < all.len() {
        let more = all.take(k + 1);
        assert(more.drop_last() =~= all.take(k));
        assert(all.skip(k)[0] == all[k]);
        assert(more.last() == all[k]);
        assert(all.take(k).push(all[k]) =~= more);
        assert(all.skip(k).drop_first() =~= all.skip(k + 1));
        lemma_carved(all, k + 1, budget);
    }
}

/// The documentation of an answer are the first cited sections, as many as its share of the budget holds.
pub proof fn law_docs_are_the_first_that_fit(all: Seq<EntryView>, budget: nat)
    ensures
        ({
            let d = carved(Docs { entries: Seq::empty(), tokens: 0 }, all, budget);
            let m = d.entries.len() as int;
            &&& m <= all.len()
            &&& d.entries == all.take(m)
            &&& d.tokens == entries_cost(all.take(m))
            &&& m < all.len() ==> entries_cost(all.take(m + 1)) > budget
        }),
{
    assert(all.take(0) =~= Seq::<EntryView>::empty());
    assert(all.skip(0) =~= all);
    lemma_carved(all, 0, budget);
}

/// Every cited section that is in the graph has an entry with its file and heading, once.
pub proof fn law_every_cited_section_has_an_entry(store: Store, hits: Seq<Weighted>, i: int, n: Node)
    requires
        0 <= i < hits.len(),
        store.node(hits[i].id) == Some(n),
    ensures
        exists|k: int|
            0 <= k < crate::docs::doc_entries(store, hits).len() && (#[trigger] crate::docs::doc_entries(
                store,
                hits,
            )[k]).line == crate::docs::doc_line(n),
    decreases hits.len(),
{
    let p = hits.drop_last();
    let e = crate::docs::doc_entries(store, p);
    let all = crate::docs::doc_entries(store, hits);
    if i < p.len() {
        assert(p[i] == hits[i]);
        law_every_cited_section_has_an_entry(store, p, i, n);
        let k = choose|k: int|
            0 <= k < e.len() && (#[trigger] e[k]).line == crate::docs::doc_line(n);
        assert(all[k] == e[k]);
    } else if has_id(p, hits[i].id) {
        let j = choose|j: int| 0 <= j < p.len() && (#[trigger] p[j]).id == hits[i].id;
        law_every_cited_section_has_an_entry(store, p, j, n);
    } else {
        assert(all[e.len() as int].line == crate::docs::doc_line(n));
    }
}

// ---------------------------------------------------------------- traces

/// Every finding whose node is in the graph has a line with its place in the ranking, its score and its node.
pub proof fn law_every_finding_is_traced(store: Store, rows: Seq<Row>, tag: Seq<char>, i: int, n: Node)
    requires
        0 <= i < rows.len(),
        store.node(rows[i].id) == Some(n),
    ensures
        holds(
            numbered(store, rows, tag),
            tag + crate::text::dec((i + 1) as nat) + "\t"@ + rows[i].score@ + "\t"@ + n.signature@ + "\t"@
                + n.path@,
        ),
    decreases rows.len(),
{
    let p = rows.drop_last();
    let rest = numbered(store, p, tag);
    let x = tag + crate::text::dec((i + 1) as nat) + "\t"@ + rows[i].score@ + "\t"@ + n.signature@ + "\t"@
        + n.path@;
    if i < p.len() {
        assert(p[i] == rows[i]);
        law_every_finding_is_traced(store, p, tag, i, n);
        if let Some(m) = store.node(rows.last().id) {
            crate::lines::lemma_holds_around(
                Seq::empty(),
                rest,
                tag + crate::text::dec(rows.len()) + "\t"@ + rows.last().score@ + crate::trace::node_tail(m),
                x,
            );
        }
    } else {
        let tail = crate::callers::line_suffix(n.line) + "\n"@;
        let own = tag + crate::text::dec(rows.len()) + "\t"@ + rows.last().score@ + crate::trace::node_tail(
            n,
        );
        assert(own =~= x + tail);
        crate::lines::lemma_holds_itself(rest, x, tail);
        assert(rest + own =~= rest + x + tail);
    }
}

/// Every seed whose node is in the graph has a line with the search that found it, its weight, its score and its node.
pub proof fn law_every_seed_is_traced(store: Store, seeds: Seq<SeedRow>, i: int, n: Node)
    requires
        0 <= i < seeds.len(),
        store.node(seeds[i].id) == Some(n),
    ensures
        holds(
            seed_lines(store, seeds),
            "FINAL\t"@ + crate::roles::source_label(seeds[i].source) + "\t"@ + seeds[i].weight@ + "\t"@ + (
            match seeds[i].rerank {
                Some(r) => r@,
                None => "-"@,
            }) + "\t"@ + n.signature@ + "\t"@ + n.path@,
        ),
    decreases seeds.len(),
{
    let p = seeds.drop_last();
    let rest = seed_lines(store, p);
    let x = "FINAL\t"@ + crate::roles::source_label(seeds[i].source) + "\t"@ + seeds[i].weight@ + "\t"@ + (
    match seeds[i].rerank {
        Some(r) => r@,
        None => "-"@,
    }) + "\t"@ + n.signature@ + "\t"@ + n.path@;
    if i < p.len() {
        assert(p[i] == seeds[i]);
        law_every_seed_is_traced(store, p, i, n);
        let s = seeds.last();
        if let Some(m) = store.node(s.id) {
            crate::lines::lemma_holds_around(
                Seq::empty(),
                rest,
                "FINAL\t"@ + crate::roles::source_label(s.source) + "\t"@ + s.weight@ + "\t"@
                    + crate::trace::or_dash(s.rerank) + crate::trace::node_tail(m),
                x,
            );
        }
    } else {
        let s = seeds.last();
        let tail = crate::callers::line_suffix(n.line) + "\n"@;
        let own = "FINAL\t"@ + crate::roles::source_label(s.source) + "\t"@ + s.weight@ + "\t"@
            + crate::trace::or_dash(s.rerank) + crate::trace::node_tail(n);
        assert(own =~= x + tail);
        crate::lines::lemma_holds_itself(rest, x, tail);
        assert(rest + own =~= rest + x + tail);
    }
}

// ---------------------------------------------------------------- clusters

/// Two seeds that a chain of edges over seeds joins are of one cluster: a seed is with itself, and with whatever an edge joins to a
/// seed that it is with.
pub proof fn law_joined_seeds_are_together(store: Store, ids: Seq<u64>, a: u64, b: u64, c: u64)
    ensures
        crate::clusters::together(store, ids, a, a),
        crate::clusters::together(store, ids, a, b) && ids.contains(c) && crate::clusters::linked(store, b, c)
            ==> crate::clusters::together(store, ids, a, c),
        (exists|i: int|
            0 <= i < store.edges@.len() && ((#[trigger] store.edges@[i]).src == b && store.edges@[i].dst == c
                || store.edges@[i].src == c && store.edges@[i].dst == b)) <==> crate::clusters::linked(
            store,
            b,
            c,
        ),
{
    if crate::clusters::linked(store, b, c) {
        if crate::seeds::leads(store, b, c) {
            let i = choose|i: int|
                0 <= i < store.edges@.len() && (#[trigger] store.edges@[i]).src == b && store.edges@[i].dst
                    == c;
            assert(store.edges@[i].src == b);
        } else {
            let i = choose|i: int|
                0 <= i < store.edges@.len() && (#[trigger] store.edges@[i]).src == c && store.edges@[i].dst
                    == b;
            assert(store.edges@[i].src == c);
        }
    }
}

/// A query spans several concepts exactly where at least four seeds are there, and two of them, each joined to another seed, are not
/// of one cluster.
pub proof fn law_concepts_are_clusters(store: Store, ids: Seq<u64>)
    ensures
        crate::clusters::spans_concepts(store, ids) <==> ids.len() >= 4 && exists|a: u64, b: u64, x: u64, y: u64|
            {
                &&& ids.contains(a) && ids.contains(b) && ids.contains(x) && ids.contains(y)
                &&& x != a && #[trigger] crate::clusters::linked(store, a, x)
                &&& y != b && #[trigger] crate::clusters::linked(store, b, y)
                &&& !crate::clusters::together(store, ids, a, b)
            },
{
    if crate::clusters::spans_concepts(store, ids) {
        let (i, j) = choose|i: int, j: int|
            0 <= i < ids.len() && 0 <= j < ids.len() && #[trigger] crate::clusters::separate(
                store,
                ids,
                ids[i],
                ids[j],
            );
        let k = choose|k: int|
            0 <= k < ids.len() && #[trigger] ids[k] != ids[i] && crate::clusters::linked(
                store,
                ids[i],
                ids[k],
            );
        let m = choose|m: int|
            0 <= m < ids.len() && #[trigger] ids[m] != ids[j] && crate::clusters::linked(
                store,
                ids[j],
                ids[m],
            );
        assert(ids.contains(ids[i]) && ids.contains(ids[j]) && ids.contains(ids[k]) && ids.contains(ids[m]));
    }
    if ids.len() >= 4 && exists|a: u64, b: u64, x: u64, y: u64|
        {
            &&& ids.contains(a) && ids.contains(b) && ids.contains(x) && ids.contains(y)
            &&& x != a && #[trigger] crate::clusters::linked(store, a, x)
            &&& y != b && #[trigger] crate::clusters::linked(store, b, y)
            &&& !crate::clusters::together(store, ids, a, b)
        } {
        let (a, b, x, y) = choose|a: u64, b: u64, x: u64, y: u64|
            {
                &&& ids.contains(a) && ids.contains(b) && ids.contains(x) && ids.contains(y)
                &&& x != a && #[trigger] crate::clusters::linked(store, a, x)
                &&& y != b && #[trigger] crate::clusters::linked(store, b, y)
                &&& !crate::clusters::together(store, ids, a, b)
            };
        let i = choose|i: int| 0 <= i < ids.len() && ids[i] == a;
        let j = choose|j: int| 0 <= j < ids.len() && ids[j] == b;
        let k = choose|k: int| 0 <= k < ids.len() && ids[k] == x;
        let m = choose|m: int| 0 <= m < ids.len() && ids[m] == y;
        assert(ids[k] != a && crate::clusters::linked(store, a, ids[k]));
        assert(ids[m] != b && crate::clusters::linked(store, b, ids[m]));
        assert(crate::clusters::separate(store, ids, ids[i], ids[j]));
    }
}

} // verus!
