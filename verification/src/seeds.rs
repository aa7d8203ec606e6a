//! Where a search for context starts.

use vstd::prelude::*;

use crate::names::split_dotted;
use crate::noise::{is_context_result_noise, is_noise_seed, kind_boost};
use crate::rank::{rank, Key, KeyView};
use crate::retrieval::EmbedRun;
use crate::store::{Edge, EdgeKind, Node, Store};
use crate::text::{has_prefix, has_str, same};

verus! {

/// The seeds that a semantic search always gives, as far as it finds any.
pub const MIN_EMBED_SEEDS: usize = 5;

/// The most seeds of a semantic search.
pub const MAX_EMBED_SEEDS: usize = 20;

/// The most seeds of one file.
pub const MAX_SEEDS_PER_PATH: usize = 2;

/// The weight of an exact match, in billionths.
pub const FTS_EXACT_WEIGHT: usize = 1_000_000_000;

/// The weight of a fuzzy match, in billionths.
pub const FTS_FUZZY_WEIGHT: usize = 600_000_000;

/// A node with a weight in billionths.
#[derive(Debug, Clone, Copy, PartialEq, Eq, Structural)]
pub struct Weighted {
    pub id: u64,
    pub weight: usize,
}

/// A node that a semantic search found.
#[derive(Debug, Clone, Copy, PartialEq, Eq, Structural)]
pub struct KnnHit {
    pub id: u64,
    /// The similarity to the query, in billionths.
    pub weight: usize,
    /// The similarity is above the floor of the model.
    pub clears_floor: bool,
}

/// A node of that id is there.
pub open spec fn has_id(v: Seq<Weighted>, id: u64) -> bool {
    exists|i: int| 0 <= i < v.len() && (#[trigger] v[i]).id == id
}

pub(crate) fn is_weighted(v: &Vec<Weighted>, id: u64) -> (r: bool)
    ensures
        r == has_id(v@, id),
{
    let mut i: usize = 0;
    while i < v.len()
        invariant
            i <= v@.len(),
            forall|j: int| 0 <= j < i ==> (#[trigger] v@[j]).id != id,
        decreases v@.len() - i,
    {
        if v[i].id == id {
            return true;
        }
        i += 1;
    }
    false
}

pub(crate) fn has_number(v: &Vec<u64>, id: u64) -> (r: bool)
    ensures
        r == v@.contains(id),
{
    let mut i: usize = 0;
    while i < v.len()
        invariant
            i <= v@.len(),
            forall|j: int| 0 <= j < i ==> v@[j] != id,
        decreases v@.len() - i,
    {
        if v[i] == id {
            return true;
        }
        i += 1;
    }
    false
}

/// A copy of the list.
pub(crate) fn copy_weighted(v: &Vec<Weighted>) -> (r: Vec<Weighted>)
    ensures
        r@ == v@,
{
    let mut r: Vec<Weighted> = Vec::new();
    let mut i: usize = 0;
    while i < v.len()
        invariant
            i <= v@.len(),
            r@ == v@.take(i as int),
        decreases v@.len() - i,
    {
        r.push(v[i]);
        i += 1;
        assert(v@.take(i as int) =~= v@.take(i - 1).push(v@[i - 1]));
    }
    assert(v@.take(i as int) =~= v@);
    r
}

// ---------------------------------------------------------------- by weight

pub open spec fn weight_keys(v: Seq<Weighted>) -> Seq<KeyView> {
    Seq::new(
        v.len(),
        |i: int| (KeyView { first: v[i].weight as nat, second: 0, name: Seq::empty() }),
    )
}

/// The nodes, the heaviest first.
pub open spec fn heaviest(v: Seq<Weighted>) -> Seq<Weighted> {
    crate::rank::at(v, crate::rank::order_of(weight_keys(v)))
}

pub(crate) fn heaviest_of(v: &Vec<Weighted>) -> (r: Vec<Weighted>)
    ensures
        r@ == heaviest(v@),
        r@.len() == v@.len(),
{
    let ghost want = weight_keys(v@);
    let mut keys: Vec<Key> = Vec::new();
    let mut i: usize = 0;
    while i < v.len()
        invariant
            i <= v@.len(),
            want == weight_keys(v@),
            keys@.len() == i,
            forall|j: int| 0 <= j < i ==> #[trigger] keys@[j]@ == want[j],
        decreases v@.len() - i,
    {
        let k = Key { first: v[i].weight, second: 0, name: String::new() };
        assert(k.name@ =~= Seq::<char>::empty());
        keys.push(k);
        i += 1;
    }
    assert(crate::rank::key_views(keys@) =~= want);
    let order = rank(&keys);
    let ghost p = crate::rank::order_of(want);
    let mut r: Vec<Weighted> = Vec::new();
    let mut k: usize = 0;
    while k < order.len()
        invariant
            k <= order@.len(),
            order@.len() == v@.len(),
            p == crate::rank::ints(order@),
            forall|j: int| 0 <= j < order@.len() ==> #[trigger] order@[j] < v@.len(),
            r@.len() == k,
            forall|j: int| 0 <= j < k ==> #[trigger] r@[j] == v@[p[j]],
        decreases order@.len() - k,
    {
        assert(p[k as int] == order@[k as int]);
        r.push(v[order[k]]);
        k += 1;
    }
    assert(r@ =~= heaviest(v@));
    r
}

// ---------------------------------------------------------------- a semantic search

/// How many of the hits lie in a file.
pub open spec fn from_path(store: Store, hits: Seq<KnnHit>, path: Seq<char>) -> nat
    decreases hits.len(),
{
    if hits.len() == 0 {
        0
    } else {
        from_path(store, hits.drop_last(), path) + match store.node(hits.last().id) {
            Some(n) => if n.path@ == path {
                1nat
            } else {
                0
            },
            None => 0,
        }
    }
}

/// The hits that may be seeds: those above the floor, and the first few in any case; no noise,
/// nothing that is denied, and no more than a few of one file.
pub open spec fn eligible(store: Store, hits: Seq<KnnHit>, denied: Seq<u64>) -> Seq<KnnHit>
    decreases hits.len(),
{
    if hits.len() == 0 {
        Seq::empty()
    } else {
        let e = eligible(store, hits.drop_last(), denied);
        let h = hits.last();
        match store.node(h.id) {
            Some(n) => if (e.len() >= MIN_EMBED_SEEDS && !h.clears_floor)
                || crate::noise::result_noise(n) || denied.contains(h.id) || from_path(
                store,
                e,
                n.path@,
            ) >= MAX_SEEDS_PER_PATH {
                e
            } else {
                e.push(h)
            },
            None => e,
        }
    }
}

/// The hits that say how well a query is matched: all but noise.
pub open spec fn oracle(store: Store, hits: Seq<KnnHit>) -> Seq<KnnHit>
    decreases hits.len(),
{
    if hits.len() == 0 {
        Seq::empty()
    } else {
        let o = oracle(store, hits.drop_last());
        match store.node(hits.last().id) {
            Some(n) => if crate::noise::result_noise(n) {
                o
            } else {
                o.push(hits.last())
            },
            None => o,
        }
    }
}

/// The first `n` entries, or all.
pub open spec fn first<A>(s: Seq<A>, n: nat) -> Seq<A> {
    if s.len() <= n {
        s
    } else {
        s.take(n as int)
    }
}

/// What a semantic search contributes.
#[derive(Debug)]
pub struct EmbedSeeds {
    /// The seeds, as far as the cap goes.
    pub seeds: Vec<KnnHit>,
    /// How many hits could have been seeds.
    pub eligible: usize,
    pub oracle: Vec<KnnHit>,
}

fn from_path_of(store: &Store, hits: &Vec<KnnHit>, path: &str) -> (r: usize)
    ensures
        r == from_path(*store, hits@, path@),
{
    let mut r: usize = 0;
    let mut i: usize = 0;
    while i < hits.len()
        invariant
            i <= hits@.len(),
            r <= i,
            r == from_path(*store, hits@.take(i as int), path@),
        decreases hits@.len() - i,
    {
        assert(hits@.take(i + 1).drop_last() =~= hits@.take(i as int));
        if let Some(n) = store.get_node(hits[i].id) {
            if same(n.path.as_str(), path) {
                r += 1;
            }
        }
        i += 1;
    }
    assert(hits@.take(i as int) =~= hits@);
    r
}

/// Chooses the seeds among the hits of a semantic search, which come best first. `denied` lists the
/// nodes that the caller may not see.
pub fn embed_path_seeds(store: &Store, hits: &Vec<KnnHit>, denied: &Vec<u64>) -> (r: EmbedSeeds)
    ensures
        r.seeds@ == first(eligible(*store, hits@, denied@), MAX_EMBED_SEEDS as nat),
        r.eligible == eligible(*store, hits@, denied@).len(),
        r.oracle@ == oracle(*store, hits@),
{
    let mut e: Vec<KnnHit> = Vec::new();
    let mut o: Vec<KnnHit> = Vec::new();
    let mut i: usize = 0;
    while i < hits.len()
        invariant
            i <= hits@.len(),
            e@ == eligible(*store, hits@.take(i as int), denied@),
            o@ == oracle(*store, hits@.take(i as int)),
        decreases hits@.len() - i,
    {
        assert(hits@.take(i + 1).drop_last() =~= hits@.take(i as int));
        let h = hits[i];
        if let Some(n) = store.get_node(h.id) {
            if !is_context_result_noise(n) {
                o.push(h);
                if !(e.len() >= MIN_EMBED_SEEDS && !h.clears_floor) && !has_number(denied, h.id)
                    && from_path_of(store, &e, n.path.as_str()) < MAX_SEEDS_PER_PATH {
                    e.push(h);
                }
            }
        }
        i += 1;
    }
    assert(hits@.take(i as int) =~= hits@);
    let count: usize = e.len();
    if count > MAX_EMBED_SEEDS {
        e.truncate(MAX_EMBED_SEEDS);
    }
    EmbedSeeds { seeds: e, eligible: count, oracle: o }
}

/// The hits of a semantic search that are used: none where it is not configured or took too long.
pub open spec fn timely(run: Option<EmbedRun>, hits: Seq<KnnHit>) -> Seq<KnnHit> {
    if run matches Some(e) && !e.late() {
        hits
    } else {
        Seq::empty()
    }
}

/// Chooses the seeds among the hits of a semantic search that was in time; none where it was not, or
/// where none is configured.
pub fn timely_seeds(store: &Store, run: Option<EmbedRun>, hits: &Vec<KnnHit>, denied: &Vec<u64>) -> (r:
    EmbedSeeds)
    ensures
        r.seeds@ == first(eligible(*store, timely(run, hits@), denied@), MAX_EMBED_SEEDS as nat),
        r.eligible == eligible(*store, timely(run, hits@), denied@).len(),
        r.oracle@ == oracle(*store, timely(run, hits@)),
{
    if let Some(e) = run {
        if !e.is_late() {
            return embed_path_seeds(store, hits, denied);
        }
    }
    let none: Vec<KnnHit> = Vec::new();
    assert(none@ =~= timely(run, hits@));
    embed_path_seeds(store, &none, denied)
}

// ---------------------------------------------------------------- a search by words

/// A part of a weight.
pub open spec fn scaled(weight: nat, hundredths: nat) -> nat {
    weight * hundredths / 100
}

/// What a textual search gives, and the weight of its matches.
pub open spec fn text_hits(store: Store, query: Seq<char>) -> (Seq<Node>, nat) {
    match store.name_hits(query) {
        Some(v) => if v.len() > 0 {
            (v, FTS_EXACT_WEIGHT as nat)
        } else {
            fuzzy_text_hits(store, query)
        },
        None => fuzzy_text_hits(store, query),
    }
}

/// What a fuzzy textual search gives; nothing where it fails.
pub open spec fn fuzzy_text_hits(store: Store, query: Seq<char>) -> (Seq<Node>, nat) {
    match store.fuzzy_hits(query, None, false) {
        Some(v) => (v, FTS_FUZZY_WEIGHT as nat),
        None => (Seq::empty(), FTS_FUZZY_WEIGHT as nat),
    }
}

/// A query in two: what must stand in a signature, and the name that is searched for. A name with a
/// dot is split at the last one; any other query asks for no qualifier.
pub open spec fn qualified_name(query: Seq<char>) -> (Seq<char>, Seq<char>) {
    match crate::names::dotted(query) {
        Some((qualifier, name)) => if qualifier.len() > 0 && name.len() > 0 {
            (qualifier, name)
        } else {
            (Seq::empty(), query)
        },
        None => (Seq::empty(), query),
    }
}

fn qualified_name_of(query: &str) -> (r: (String, String))
    ensures
        qualified_name(query@) == (r.0@, r.1@),
{
    if let Some((qualifier, name)) = split_dotted(query) {
        if !qualifier.as_str().is_empty() && !name.as_str().is_empty() {
            return (qualifier, name);
        }
    }
    let none = String::new();
    assert(none@ =~= Seq::<char>::empty());
    (none, query.to_owned())
}

/// The nodes that may be seeds: with the qualifier in the signature, no noise, and nothing that is
/// denied.
pub open spec fn seedable(qualifier: Seq<char>, denied: Seq<u64>) -> spec_fn(Node) -> bool {
    |n: Node|
        crate::text::contains(n.signature@, qualifier) && !n.is_noise && !denied.contains(n.id)
}

/// The seeds that a textual search gives: a few, weighted by their kind.
pub open spec fn text_seeds(store: Store, query: Seq<char>, denied: Seq<u64>) -> Seq<Weighted> {
    let (qualifier, name) = qualified_name(query);
    let (hits, weight) = text_hits(store, name);
    let nodes = first(crate::store::kept(hits, seedable(qualifier, denied)), 5);
    Seq::new(
        nodes.len(),
        |i: int|
            Weighted {
                id: nodes[i].id,
                weight: scaled(weight, crate::noise::boost(nodes[i].kind@, nodes[i].language@))
                    as usize,
            },
    )
}

/// The seeds that a textual search gives, each with the weight of its match and kind. Of a name with a
/// dot, what follows the last one is searched for, and what stands before must be in the signature.
pub fn fts_seeds_weighted(store: &Store, query: &str, denied: &Vec<u64>) -> (r: Vec<Weighted>)
    ensures
        r@ == text_seeds(*store, query@, denied@),
{
    let (qualifier, name) = qualified_name_of(query);
    let mut exact: Vec<Node> = match store.search_nodes_by_name(name.as_str()) {
        Some(v) => v,
        None => Vec::new(),
    };
    let mut weight: usize = FTS_EXACT_WEIGHT;
    if exact.len() == 0 {
        weight = FTS_FUZZY_WEIGHT;
        exact = match store.search_nodes_fuzzy(name.as_str(), None, false) {
            Some(v) => v,
            None => Vec::new(),
        };
    }
    assert(exact@ =~= text_hits(*store, name@).0);
    let f = |n: &Node| -> (b: bool)
        ensures
            b == (crate::text::contains(n.signature@, qualifier@) && !n.is_noise
                && !denied@.contains(n.id)),
        {
            has_str(n.signature.as_str(), qualifier.as_str()) && !is_noise_seed(n) && !has_number(
                denied,
                n.id,
            )
        };
    let nodes = crate::store::keep(&exact, f, Ghost(seedable(qualifier@, denied@)));
    let ghost want = text_seeds(*store, query@, denied@);
    let ghost top = first(nodes@, 5);
    let mut r: Vec<Weighted> = Vec::new();
    let mut i: usize = 0;
    while i < nodes.len() && i < 5
        invariant
            i <= nodes@.len(),
            i <= 5,
            qualified_name(query@) == (qualifier@, name@),
            weight == text_hits(*store, name@).1,
            weight <= FTS_EXACT_WEIGHT,
            top == first(nodes@, 5),
            want == text_seeds(*store, query@, denied@),
            nodes@ == crate::store::kept(
                text_hits(*store, name@).0,
                seedable(qualifier@, denied@),
            ),
            r@.len() == i,
            forall|j: int| 0 <= j < i ==> #[trigger] r@[j] == want[j],
        decreases nodes@.len() - i,
    {
        let b: u64 = kind_boost(nodes[i].kind.as_str(), nodes[i].language.as_str());
        assert(top[i as int] == nodes@[i as int]);
        assert(weight * b <= 1_000_000_000 * 200) by (nonlinear_arith)
            requires
                weight <= 1_000_000_000,
                b <= 200,
        ;
        let w: u64 = weight as u64 * b / 100;
        assert(w == scaled(weight as nat, b as nat));
        r.push(Weighted { id: nodes[i].id, weight: w as usize });
        i += 1;
    }
    assert(r@ =~= want);
    r
}

/// The ids, each once, in order of first occurrence.
pub open spec fn distinct_ids(v: Seq<Weighted>) -> Seq<u64>
    decreases v.len(),
{
    if v.len() == 0 {
        Seq::empty()
    } else {
        let d = distinct_ids(v.drop_last());
        if d.contains(v.last().id) {
            d
        } else {
            d.push(v.last().id)
        }
    }
}

/// The last weight that a list gives a node; nought where it gives none.
pub open spec fn last_weight(v: Seq<Weighted>, id: u64) -> nat
    decreases v.len(),
{
    if v.len() == 0 {
        0
    } else if v.last().id == id {
        v.last().weight as nat
    } else {
        last_weight(v.drop_last(), id)
    }
}

/// The largest weight that a list gives a node; nought where it gives none.
pub open spec fn top_weight(v: Seq<Weighted>, id: u64) -> nat
    decreases v.len(),
{
    if v.len() == 0 {
        0
    } else {
        let t = top_weight(v.drop_last(), id);
        if v.last().id == id && v.last().weight > t {
            v.last().weight as nat
        } else {
            t
        }
    }
}

/// The weight of a node in two lists put together.
pub open spec fn merged_weight(fts: Seq<Weighted>, knn: Seq<Weighted>, id: u64) -> nat {
    let a = last_weight(fts, id);
    let b = top_weight(knn, id);
    if a < b {
        b
    } else {
        a
    }
}

/// Two lists put together: a node in both has the larger weight.
pub open spec fn merged(fts: Seq<Weighted>, knn: Seq<Weighted>) -> Seq<Weighted> {
    let ids = distinct_ids(fts + knn);
    Seq::new(
        ids.len(),
        |i: int| Weighted { id: ids[i], weight: merged_weight(fts, knn, ids[i]) as usize },
    )
}

fn last_weight_of(v: &Vec<Weighted>, id: u64) -> (r: usize)
    ensures
        r == last_weight(v@, id),
{
    let mut r: usize = 0;
    let mut i: usize = 0;
    while i < v.len()
        invariant
            i <= v@.len(),
            r == last_weight(v@.take(i as int), id),
        decreases v@.len() - i,
    {
        assert(v@.take(i + 1).drop_last() =~= v@.take(i as int));
        if v[i].id == id {
            r = v[i].weight;
        }
        i += 1;
    }
    assert(v@.take(i as int) =~= v@);
    r
}

fn top_weight_of(v: &Vec<Weighted>, id: u64) -> (r: usize)
    ensures
        r == top_weight(v@, id),
{
    let mut r: usize = 0;
    let mut i: usize = 0;
    while i < v.len()
        invariant
            i <= v@.len(),
            r == top_weight(v@.take(i as int), id),
        decreases v@.len() - i,
    {
        assert(v@.take(i + 1).drop_last() =~= v@.take(i as int));
        if v[i].id == id && v[i].weight > r {
            r = v[i].weight;
        }
        i += 1;
    }
    assert(v@.take(i as int) =~= v@);
    r
}

/// Adds the ids that are not there yet.
pub(crate) fn add_ids(ids: &mut Vec<u64>, v: &Vec<Weighted>, Ghost(before): Ghost<Seq<Weighted>>)
    requires
        old(ids)@ == distinct_ids(before),
    ensures
        final(ids)@ == distinct_ids(before + v@),
{
    let mut i: usize = 0;
    assert(before + v@.take(0) =~= before);
    while i < v.len()
        invariant
            i <= v@.len(),
            ids@ == distinct_ids(before + v@.take(i as int)),
        decreases v@.len() - i,
    {
        assert((before + v@.take(i + 1)).drop_last() =~= before + v@.take(i as int));
        assert((before + v@.take(i + 1)).last() == v@[i as int]);
        if !has_number(ids, v[i].id) {
            ids.push(v[i].id);
        }
        i += 1;
    }
    assert(v@.take(i as int) =~= v@);
}

/// Puts the seeds of a textual and of a semantic search together, the heaviest first, up to the
/// cap. Also says whether there were more than the cap lets through.
pub fn merge_fts_knn_seeds(
    fts: &Vec<Weighted>,
    knn: &Vec<Weighted>,
    n_knn_eligible: usize,
) -> (r: (Vec<Weighted>, bool))
    ensures
        r.0@ == first(heaviest(merged(fts@, knn@)), MAX_EMBED_SEEDS as nat),
        r.1 == (merged(fts@, knn@).len() > MAX_EMBED_SEEDS || n_knn_eligible > MAX_EMBED_SEEDS),
{
    let mut ids: Vec<u64> = Vec::new();
    let ghost none = Seq::<Weighted>::empty();
    assert(none + fts@ =~= fts@);
    add_ids(&mut ids, fts, Ghost(none));
    add_ids(&mut ids, knn, Ghost(fts@));
    let ghost want = merged(fts@, knn@);
    let mut all: Vec<Weighted> = Vec::new();
    let mut i: usize = 0;
    while i < ids.len()
        invariant
            i <= ids@.len(),
            ids@ == distinct_ids(fts@ + knn@),
            want == merged(fts@, knn@),
            all@.len() == i,
            forall|j: int| 0 <= j < i ==> #[trigger] all@[j] == want[j],
        decreases ids@.len() - i,
    {
        let a: usize = last_weight_of(fts, ids[i]);
        let b: usize = top_weight_of(knn, ids[i]);
        let w: usize = if a < b {
            b
        } else {
            a
        };
        all.push(Weighted { id: ids[i], weight: w });
        i += 1;
    }
    assert(all@ =~= want);
    let mut r = heaviest_of(&all);
    let fired = r.len() > MAX_EMBED_SEEDS || n_knn_eligible > MAX_EMBED_SEEDS;
    if r.len() > MAX_EMBED_SEEDS {
        r.truncate(MAX_EMBED_SEEDS);
    }
    (r, fired)
}

// ---------------------------------------------------------------- seeds next to each other

/// An edge leads from one node to another.
pub open spec fn leads(store: Store, a: u64, b: u64) -> bool {
    exists|i: int|
        0 <= i < store.edges@.len() && (#[trigger] store.edges@[i]).src == a && store.edges@[i].dst
            == b
}

/// An edge leads from one of the nodes to another.
pub open spec fn reached(store: Store, from: Seq<Weighted>, id: u64) -> bool {
    exists|i: int| 0 <= i < from.len() && leads(store, (#[trigger] from[i]).id, id)
}

/// The seeds without those that an edge leads to from a seed kept before.
pub open spec fn apart(store: Store, seeds: Seq<Weighted>) -> Seq<Weighted>
    decreases seeds.len(),
{
    if seeds.len() == 0 {
        Seq::empty()
    } else {
        let a = apart(store, seeds.drop_last());
        if reached(store, a, seeds.last().id) {
            a
        } else {
            a.push(seeds.last())
        }
    }
}

pub(crate) fn leads_to(store: &Store, a: u64, b: u64) -> (r: bool)
    ensures
        r == leads(*store, a, b),
{
    let mut i: usize = 0;
    while i < store.edges.len()
        invariant
            i <= store.edges@.len(),
            forall|j: int|
                0 <= j < i ==> !((#[trigger] store.edges@[j]).src == a && store.edges@[j].dst == b),
        decreases store.edges@.len() - i,
    {
        if store.edges[i].src == a && store.edges[i].dst == b {
            return true;
        }
        i += 1;
    }
    false
}

fn is_reached(store: &Store, from: &Vec<Weighted>, id: u64) -> (r: bool)
    ensures
        r == reached(*store, from@, id),
{
    let mut i: usize = 0;
    while i < from.len()
        invariant
            i <= from@.len(),
            forall|j: int| 0 <= j < i ==> !leads(*store, (#[trigger] from@[j]).id, id),
        decreases from@.len() - i,
    {
        if leads_to(store, from[i].id, id) {
            return true;
        }
        i += 1;
    }
    false
}

/// Drops the seeds that a seed before them leads to: a walk from that one reaches them anyway.
pub fn dedup_adjacent_seeds(store: &Store, seeds: &Vec<Weighted>) -> (r: Vec<Weighted>)
    ensures
        r@ == apart(*store, seeds@),
{
    let mut r: Vec<Weighted> = Vec::new();
    let mut i: usize = 0;
    while i < seeds.len()
        invariant
            i <= seeds@.len(),
            r@ == apart(*store, seeds@.take(i as int)),
        decreases seeds@.len() - i,
    {
        assert(seeds@.take(i + 1).drop_last() =~= seeds@.take(i as int));
        if !is_reached(store, &r, seeds[i].id) {
            r.push(seeds[i]);
        }
        i += 1;
    }
    assert(seeds@.take(i as int) =~= seeds@);
    r
}

// ---------------------------------------------------------------- callers of seeds

/// A caller that is no noise, and of which neither path nor name says that it is a test.
pub open spec fn production(n: Node) -> bool {
    !n.is_noise && !crate::text::contains(n.path@, "/tests/"@) && !crate::text::contains(
        n.path@,
        "/benches/"@,
    ) && !crate::text::starts_with(n.signature@, "fn:test_"@)
        && !crate::text::starts_with(n.signature@, "fn:bench_"@) && !crate::text::starts_with(
        n.signature@,
        "fn:prop_"@,
    )
}

fn is_production(n: &Node) -> (r: bool)
    ensures
        r == production(*n),
{
    !is_noise_seed(n) && !has_str(n.path.as_str(), "/tests/") && !has_str(
        n.path.as_str(),
        "/benches/",
    ) && !has_prefix(n.signature.as_str(), "fn:test_") && !has_prefix(
        n.signature.as_str(),
        "fn:bench_",
    ) && !has_prefix(n.signature.as_str(), "fn:prop_")
}

/// The callers that edges show, each once; those that are seeds already are left out.
pub open spec fn callers(store: Store, edges: Seq<Edge>, seeds: Seq<Weighted>) -> Seq<u64>
    decreases edges.len(),
{
    if edges.len() == 0 {
        Seq::empty()
    } else {
        let c = callers(store, edges.drop_last(), seeds);
        let e = edges.last();
        match store.node(e.src) {
            Some(n) => if e.kind == EdgeKind::RefCall && !has_id(seeds, e.src) && production(n)
                && !c.contains(e.src) {
                c.push(e.src)
            } else {
                c
            },
            None => c,
        }
    }
}

/// What callers are ranked by: how many edges leave them.
pub open spec fn degree_keys(store: Store, ids: Seq<u64>) -> Seq<KeyView> {
    Seq::new(
        ids.len(),
        |i: int|
            (KeyView {
                first: crate::store::leaving(store.edges@, ids[i]).len(),
                second: 0,
                name: Seq::empty(),
            }),
    )
}

/// The callers of a seed that are added: those with the most edges.
pub open spec fn top_callers(store: Store, seed: u64, seeds: Seq<Weighted>) -> Seq<u64> {
    let ids = callers(store, store.arriving(seed), seeds);
    first(crate::rank::at(ids, crate::rank::order_of(degree_keys(store, ids))), 5)
}

/// The callers that one seed adds, with their weight.
pub open spec fn additions(store: Store, seed: Weighted, seeds: Seq<Weighted>) -> Seq<Weighted> {
    let ids = top_callers(store, seed.id, seeds);
    Seq::new(
        ids.len(),
        |i: int| Weighted { id: ids[i], weight: scaled(seed.weight as nat, 35) as usize },
    )
}

/// The callers that the first `n` seeds add.
pub open spec fn all_additions(store: Store, seeds: Seq<Weighted>, n: int) -> Seq<Weighted>
    decreases n,
{
    if n <= 0 {
        Seq::empty()
    } else {
        all_additions(store, seeds, n - 1) + additions(store, seeds[n - 1], seeds)
    }
}

/// The nodes that are neither among the seeds nor listed before.
pub open spec fn fresh(seeds: Seq<Weighted>, more: Seq<Weighted>) -> Seq<Weighted>
    decreases more.len(),
{
    if more.len() == 0 {
        Seq::empty()
    } else {
        let f = fresh(seeds, more.drop_last());
        if has_id(seeds, more.last().id) || has_id(f, more.last().id) {
            f
        } else {
            f.push(more.last())
        }
    }
}

/// The seeds with their callers, as far as the limit goes.
pub open spec fn enriched(store: Store, seeds: Seq<Weighted>, max_new: nat) -> Seq<Weighted> {
    seeds + first(
        fresh(seeds, heaviest(all_additions(store, seeds, seeds.len() as int))),
        max_new,
    )
}

fn callers_of(store: &Store, edges: &Vec<Edge>, seeds: &Vec<Weighted>) -> (r: Vec<u64>)
    ensures
        r@ == callers(*store, edges@, seeds@),
{
    let mut r: Vec<u64> = Vec::new();
    let mut i: usize = 0;
    while i < edges.len()
        invariant
            i <= edges@.len(),
            r@ == callers(*store, edges@.take(i as int), seeds@),
        decreases edges@.len() - i,
    {
        assert(edges@.take(i + 1).drop_last() =~= edges@.take(i as int));
        let e = edges[i];
        if let Some(n) = store.get_node(e.src) {
            if e.kind == EdgeKind::RefCall && !is_weighted(seeds, e.src) && is_production(n)
                && !has_number(&r, e.src) {
                r.push(e.src);
            }
        }
        i += 1;
    }
    assert(edges@.take(i as int) =~= edges@);
    r
}

fn top_callers_of(store: &Store, seed: u64, seeds: &Vec<Weighted>) -> (r: Vec<u64>)
    ensures
        r@ == top_callers(*store, seed, seeds@),
{
    let edges = store.edges_to(seed);
    let ids = callers_of(store, &edges, seeds);
    let ghost want = degree_keys(*store, ids@);
    let mut keys: Vec<Key> = Vec::new();
    let mut i: usize = 0;
    while i < ids.len()
        invariant
            i <= ids@.len(),
            want == degree_keys(*store, ids@),
            keys@.len() == i,
            forall|j: int| 0 <= j < i ==> #[trigger] keys@[j]@ == want[j],
        decreases ids@.len() - i,
    {
        let out = store.edges_from(ids[i]);
        let k = Key { first: out.len(), second: 0, name: String::new() };
        assert(k.name@ =~= Seq::<char>::empty());
        keys.push(k);
        i += 1;
    }
    assert(crate::rank::key_views(keys@) =~= want);
    let order = rank(&keys);
    let ghost p = crate::rank::order_of(want);
    let ghost all = crate::rank::at(ids@, p);
    let mut r: Vec<u64> = Vec::new();
    let mut k: usize = 0;
    while k < order.len() && k < 5
        invariant
            k <= order@.len(),
            k <= 5,
            order@.len() == ids@.len(),
            p == crate::rank::ints(order@),
            all == crate::rank::at(ids@, p),
            forall|j: int| 0 <= j < order@.len() ==> #[trigger] order@[j] < ids@.len(),
            r@.len() == k,
            forall|j: int| 0 <= j < k ==> #[trigger] r@[j] == all[j],
        decreases order@.len() - k,
    {
        assert(p[k as int] == order@[k as int]);
        r.push(ids[order[k]]);
        k += 1;
    }
    assert(r@ =~= first(all, 5));
    r
}

/// 35 hundredths of a weight.
fn caller_weight(weight: usize) -> (r: usize)
    ensures
        r == scaled(weight as nat, 35),
{
    let q: usize = weight / 100;
    let m: usize = weight % 100;
    assert(weight == q * 100 + m);
    let r: usize = q * 35 + m * 35 / 100;
    assert((q * 100 + m) * 35 / 100 == q * 35 + m * 35 / 100) by (nonlinear_arith);
    r
}

fn fresh_of(seeds: &Vec<Weighted>, more: &Vec<Weighted>) -> (r: Vec<Weighted>)
    ensures
        r@ == fresh(seeds@, more@),
{
    let mut r: Vec<Weighted> = Vec::new();
    let mut i: usize = 0;
    while i < more.len()
        invariant
            i <= more@.len(),
            r@ == fresh(seeds@, more@.take(i as int)),
        decreases more@.len() - i,
    {
        assert(more@.take(i + 1).drop_last() =~= more@.take(i as int));
        if !is_weighted(seeds, more[i].id) && !is_weighted(&r, more[i].id) {
            r.push(more[i]);
        }
        i += 1;
    }
    assert(more@.take(i as int) =~= more@);
    r
}

/// Adds to each seed its most connected callers at 35 hundredths of its weight, at most
/// `max_new_total` in all: a walk along the edges never gets to them.
pub fn enrich_seeds_with_callers(
    store: &Store,
    seeds: &Vec<Weighted>,
    max_new_total: usize,
) -> (r: Vec<Weighted>)
    ensures
        r@ == enriched(*store, seeds@, max_new_total as nat),
{
    let mut adds: Vec<Weighted> = Vec::new();
    let mut i: usize = 0;
    while i < seeds.len()
        invariant
            i <= seeds@.len(),
            adds@ == all_additions(*store, seeds@, i as int),
        decreases seeds@.len() - i,
    {
        let ids = top_callers_of(store, seeds[i].id, seeds);
        let w: usize = caller_weight(seeds[i].weight);
        let ghost before = adds@;
        let ghost more = additions(*store, seeds@[i as int], seeds@);
        let mut k: usize = 0;
        assert(before + more.take(0) =~= before);
        while k < ids.len()
            invariant
                k <= ids@.len(),
                i < seeds@.len(),
                w == scaled(seeds@[i as int].weight as nat, 35),
                ids@ == top_callers(*store, seeds@[i as int].id, seeds@),
                more == additions(*store, seeds@[i as int], seeds@),
                adds@ == before + more.take(k as int),
            decreases ids@.len() - k,
        {
            adds.push(Weighted { id: ids[k], weight: w });
            assert(more.take(k + 1) =~= more.take(k as int).push(more[k as int]));
            assert((before + more.take(k as int)).push(more[k as int]) =~= before + more.take(
                k + 1,
            ));
            k += 1;
        }
        assert(more.take(k as int) =~= more);
        i += 1;
    }
    let sorted = heaviest_of(&adds);
    let mut news = fresh_of(seeds, &sorted);
    if news.len() > max_new_total {
        news.truncate(max_new_total);
    }
    let mut r = copy_weighted(seeds);
    r.append(&mut news);
    r
}

// ---------------------------------------------------------------- laws

/// A seed that no other seed leads to is kept: callers are never dropped.
pub proof fn law_callers_are_never_dropped(store: Store, seeds: Seq<Weighted>, i: int)
    requires
        0 <= i < seeds.len(),
        forall|j: int| 0 <= j < seeds.len() ==> !leads(store, (#[trigger] seeds[j]).id, seeds[i].id),
    ensures
        apart(store, seeds).contains(seeds[i]),
    decreases seeds.len(),
{
    let p = seeds.drop_last();
    let a = apart(store, p);
    lemma_apart_within(store, p);
    if i < p.len() {
        assert(p[i] == seeds[i]);
        assert forall|j: int| 0 <= j < p.len() implies !leads(store, (#[trigger] p[j]).id, p[i].id) by {
            assert(p[j] == seeds[j]);
        }
        law_callers_are_never_dropped(store, p, i);
        crate::store::lemma_push_contains(a, seeds.last(), seeds[i]);
    } else {
        assert forall|j: int| 0 <= j < a.len() implies !leads(
            store,
            (#[trigger] a[j]).id,
            seeds[i].id,
        ) by {
            assert(a.contains(a[j]));
            assert(p.contains(a[j]));
            let k = choose|k: int| 0 <= k < p.len() && p[k] == a[j];
            assert(seeds[k] == a[j]);
        }
        crate::store::lemma_push_contains(a, seeds.last(), seeds[i]);
    }
}

proof fn lemma_apart_within(store: Store, seeds: Seq<Weighted>)
    ensures
        forall|w: Weighted| #[trigger] apart(store, seeds).contains(w) ==> seeds.contains(w),
    decreases seeds.len(),
{
    if seeds.len() > 0 {
        let p = seeds.drop_last();
        lemma_apart_within(store, p);
        assert(seeds =~= p.push(seeds.last()));
        assert forall|w: Weighted| #[trigger] apart(store, seeds).contains(w) implies seeds.contains(
            w,
        ) by {
            crate::store::lemma_push_contains(p, seeds.last(), w);
            crate::store::lemma_push_contains(apart(store, p), seeds.last(), w);
        }
    }
}

/// A seed that is dropped is reached from one that is kept.
pub proof fn law_dropped_seeds_are_reached(store: Store, seeds: Seq<Weighted>, i: int)
    requires
        0 <= i < seeds.len(),
        !apart(store, seeds).contains(seeds[i]),
    ensures
        reached(store, apart(store, seeds), seeds[i].id),
    decreases seeds.len(),
{
    let p = seeds.drop_last();
    let a = apart(store, p);
    let all = apart(store, seeds);
    if i < p.len() {
        assert(p[i] == seeds[i]);
        crate::store::lemma_push_contains(a, seeds.last(), seeds[i]);
        law_dropped_seeds_are_reached(store, p, i);
        let k = choose|k: int| 0 <= k < a.len() && leads(store, (#[trigger] a[k]).id, seeds[i].id);
        assert(all[k] == a[k]);
    } else {
        crate::store::lemma_push_contains(a, seeds.last(), seeds[i]);
    }
}

/// Adding callers keeps every seed with its weight, in front, and adds no more than the limit and
/// no seed again.
pub proof fn law_enrichment_keeps_the_seeds(store: Store, seeds: Seq<Weighted>, max_new: nat)
    ensures
        enriched(store, seeds, max_new).take(seeds.len() as int) == seeds,
        enriched(store, seeds, max_new).len() <= seeds.len() + max_new,
        forall|i: int|
            seeds.len() <= i < enriched(store, seeds, max_new).len() ==> !has_id(
                seeds,
                (#[trigger] enriched(store, seeds, max_new)[i]).id,
            ),
{
    let more = heaviest(all_additions(store, seeds, seeds.len() as int));
    let f = fresh(seeds, more);
    lemma_fresh(seeds, more);
    let e = enriched(store, seeds, max_new);
    assert(e.take(seeds.len() as int) =~= seeds);
    assert forall|i: int| seeds.len() <= i < e.len() implies !has_id(seeds, (#[trigger] e[i]).id) by {
        assert(e[i] == f[i - seeds.len()]);
    }
}

proof fn lemma_fresh(seeds: Seq<Weighted>, more: Seq<Weighted>)
    ensures
        forall|i: int|
            0 <= i < fresh(seeds, more).len() ==> !has_id(seeds, (#[trigger] fresh(seeds, more)[i]).id),
    decreases more.len(),
{
    if more.len() > 0 {
        let f = fresh(seeds, more.drop_last());
        lemma_fresh(seeds, more.drop_last());
        assert forall|i: int| 0 <= i < fresh(seeds, more).len() implies !has_id(
            seeds,
            (#[trigger] fresh(seeds, more)[i]).id,
        ) by {
            if i < f.len() {
                assert(fresh(seeds, more)[i] == f[i]);
            }
        }
    }
}

/// No file gives more than a few of the hits that may be seeds.
pub proof fn law_seeds_do_not_cluster(store: Store, hits: Seq<KnnHit>, denied: Seq<u64>, path: Seq<char>)
    ensures
        from_path(store, eligible(store, hits, denied), path) <= MAX_SEEDS_PER_PATH,
    decreases hits.len(),
{
    if hits.len() > 0 {
        law_seeds_do_not_cluster(store, hits.drop_last(), denied, path);
        let e = eligible(store, hits.drop_last(), denied);
        let f = eligible(store, hits, denied);
        if f != e {
            assert(f.drop_last() =~= e);
        }
    }
}

/// Nothing that is denied, and no noise, may be a seed.
pub proof fn law_seeds_are_allowed(store: Store, hits: Seq<KnnHit>, denied: Seq<u64>)
    ensures
        forall|i: int|
            0 <= i < eligible(store, hits, denied).len() ==> !denied.contains(
                (#[trigger] eligible(store, hits, denied)[i]).id,
            ) && store.node(eligible(store, hits, denied)[i].id) is Some
                && !crate::noise::result_noise(
                store.node(eligible(store, hits, denied)[i].id).unwrap(),
            ),
    decreases hits.len(),
{
    if hits.len() > 0 {
        law_seeds_are_allowed(store, hits.drop_last(), denied);
        let e = eligible(store, hits.drop_last(), denied);
        let f = eligible(store, hits, denied);
        assert forall|i: int| 0 <= i < f.len() implies !denied.contains((#[trigger] f[i]).id)
            && store.node(f[i].id) is Some && !crate::noise::result_noise(
            store.node(f[i].id).unwrap(),
        ) by {
            if i < e.len() {
                assert(f[i] == e[i]);
            }
        }
    }
}

} // verus!
