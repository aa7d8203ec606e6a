//! What a node has to do with the seeds of a query.

use vstd::prelude::*;

use crate::retrieval::SeedSource;
use crate::seeds::{has_number, is_weighted, Weighted};
use crate::sections::MatchSource;
use crate::store::{Edge, EdgeKind, Node, Store};

verus! {

/// What a node has to do with the seeds.
#[derive(Debug, Clone, Copy, PartialEq, Eq, Structural)]
pub enum NodeRole {
    /// It is one.
    Seed,
    /// It uses one.
    Caller,
    /// One uses it.
    Dependency,
    /// It is near them.
    Context,
}

impl NodeRole {
    pub open spec fn name(self) -> Seq<char> {
        match self {
            NodeRole::Seed => "seed"@,
            NodeRole::Caller => "caller"@,
            NodeRole::Dependency => "dependency"@,
            NodeRole::Context => "context"@,
        }
    }

    /// The name of the role.
    pub fn label(self) -> (r: &'static str)
        ensures
            r@ == self.name(),
    {
        match self {
            NodeRole::Seed => "seed",
            NodeRole::Caller => "caller",
            NodeRole::Dependency => "dependency",
            NodeRole::Context => "context",
        }
    }
}

/// An edge by which a seed calls or imports a node.
pub open spec fn shows_use(e: Edge, id: u64) -> bool {
    e.dst == id && (e.kind == EdgeKind::RefCall || e.kind == EdgeKind::Depends || e.kind
        == EdgeKind::RefImports)
}

/// An edge by which a node uses a seed.
pub open spec fn shows_caller(e: Edge, id: u64) -> bool {
    e.src == id && (e.kind == EdgeKind::RefCall || e.kind == EdgeKind::RefImports || e.kind
        == EdgeKind::Depends)
}

/// How one edge leads from a seed to a node, or back.
pub open spec fn link(store: Store, seed: u64, id: u64) -> Option<NodeRole> {
    let out = crate::store::leaving(store.edges@, seed);
    let back = store.arriving(seed);
    if exists|i: int| 0 <= i < out.len() && shows_use(#[trigger] out[i], id) {
        Some(NodeRole::Dependency)
    } else if exists|i: int| 0 <= i < back.len() && shows_caller(#[trigger] back[i], id) {
        Some(NodeRole::Caller)
    } else {
        None
    }
}

/// The first seed that one edge joins to a node, and how.
pub open spec fn first_link(store: Store, seeds: Seq<Weighted>, id: u64) -> Option<(NodeRole, u64)>
    decreases seeds.len(),
{
    if seeds.len() == 0 {
        None
    } else {
        match first_link(store, seeds.drop_last(), id) {
            Some(x) => Some(x),
            None => match link(store, seeds.last().id, id) {
                Some(r) => Some((r, seeds.last().id)),
                None => None,
            },
        }
    }
}

/// What a node has to do with the seeds. `primary` lists the seeds that the query itself gave.
pub open spec fn role(store: Store, seeds: Seq<Weighted>, primary: Seq<u64>, id: u64) -> NodeRole {
    if primary.contains(id) && crate::seeds::has_id(seeds, id) {
        NodeRole::Seed
    } else {
        match first_link(store, seeds, id) {
            Some(x) => x.0,
            None => NodeRole::Context,
        }
    }
}

/// The signature of the first seed that one edge joins to a node.
pub open spec fn via(store: Store, seeds: Seq<Weighted>, id: u64) -> Option<Seq<char>> {
    match first_link(store, seeds, id) {
        Some(x) => match store.node(x.1) {
            Some(n) => Some(n.signature@),
            None => None,
        },
        None => None,
    }
}

fn link_of(store: &Store, seed: u64, id: u64) -> (r: Option<NodeRole>)
    ensures
        r == link(*store, seed, id),
{
    let out = store.edges_from(seed);
    let mut i: usize = 0;
    while i < out.len()
        invariant
            i <= out@.len(),
            out@ == crate::store::leaving(store.edges@, seed),
            forall|j: int| 0 <= j < i ==> !shows_use(#[trigger] out@[j], id),
        decreases out@.len() - i,
    {
        let e = out[i];
        if e.dst == id && (e.kind == EdgeKind::RefCall || e.kind == EdgeKind::Depends || e.kind
            == EdgeKind::RefImports) {
            assert(shows_use(out@[i as int], id));
            return Some(NodeRole::Dependency);
        }
        i += 1;
    }
    let back = store.edges_to(seed);
    let mut k: usize = 0;
    while k < back.len()
        invariant
            k <= back@.len(),
            out@ == crate::store::leaving(store.edges@, seed),
            forall|j: int| 0 <= j < out@.len() ==> !shows_use(#[trigger] out@[j], id),
            back@ == store.arriving(seed),
            forall|j: int| 0 <= j < k ==> !shows_caller(#[trigger] back@[j], id),
        decreases back@.len() - k,
    {
        let e = back[k];
        if e.src == id && (e.kind == EdgeKind::RefCall || e.kind == EdgeKind::RefImports || e.kind
            == EdgeKind::Depends) {
            assert(shows_caller(back@[k as int], id));
            return Some(NodeRole::Caller);
        }
        k += 1;
    }
    None
}

fn first_link_of(store: &Store, seeds: &Vec<Weighted>, id: u64) -> (r: Option<(NodeRole, u64)>)
    ensures
        r == first_link(*store, seeds@, id),
{
    let mut r: Option<(NodeRole, u64)> = None;
    let mut i: usize = 0;
    while i < seeds.len()
        invariant
            i <= seeds@.len(),
            r == first_link(*store, seeds@.take(i as int), id),
        decreases seeds@.len() - i,
    {
        assert(seeds@.take(i + 1).drop_last() =~= seeds@.take(i as int));
        if r.is_none() {
            if let Some(x) = link_of(store, seeds[i].id, id) {
                r = Some((x, seeds[i].id));
            }
        }
        i += 1;
    }
    assert(seeds@.take(i as int) =~= seeds@);
    r
}

pub(crate) fn role_of(store: &Store, seeds: &Vec<Weighted>, primary: &Vec<u64>, id: u64) -> (r:
    NodeRole)
    ensures
        r == role(*store, seeds@, primary@, id),
{
    if has_number(primary, id) && is_weighted(seeds, id) {
        return NodeRole::Seed;
    }
    match first_link_of(store, seeds, id) {
        Some(x) => x.0,
        None => NodeRole::Context,
    }
}

pub(crate) fn via_of<'a>(store: &'a Store, seeds: &Vec<Weighted>, id: u64) -> (r: Option<&'a str>)
    ensures
        crate::store::opt_view(r) == via(*store, seeds@, id),
{
    match first_link_of(store, seeds, id) {
        Some(x) => match store.get_node(x.1) {
            Some(n) => Some(n.signature.as_str()),
            None => None,
        },
        None => None,
    }
}

/// The section that a node belongs to: tests by themselves, then the seeds that the query gave.
pub open spec fn section(n: Node, source: Option<SeedSource>, primary: Seq<u64>) -> MatchSource {
    if n.is_test {
        MatchSource::Tests
    } else if !primary.contains(n.id) {
        MatchSource::Relevant
    } else if source == Some(SeedSource::Exact) {
        MatchSource::Exact
    } else {
        MatchSource::Semantic
    }
}

pub(crate) fn section_of(n: &Node, source: Option<SeedSource>, primary: &Vec<u64>) -> (r: MatchSource)
    ensures
        r == section(*n, source, primary@),
{
    if n.is_test {
        MatchSource::Tests
    } else if !has_number(primary, n.id) {
        MatchSource::Relevant
    } else {
        match source {
            Some(SeedSource::Exact) => MatchSource::Exact,
            _ => MatchSource::Semantic,
        }
    }
}

/// The tag of a search in a trace.
pub open spec fn source_label(s: SeedSource) -> Seq<char> {
    match s {
        SeedSource::Exact => "exact"@,
        SeedSource::Lexical => "lexical"@,
        SeedSource::Knn => "knn"@,
    }
}

/// The tag of a search in a trace.
pub fn seed_source_label(source: SeedSource) -> (r: &'static str)
    ensures
        r@ == source_label(source),
{
    match source {
        SeedSource::Exact => "exact",
        SeedSource::Lexical => "lexical",
        SeedSource::Knn => "knn",
    }
}

/// The name of a search in an answer.
pub open spec fn source_name(s: SeedSource) -> Seq<char> {
    match s {
        SeedSource::Exact => "exact-name"@,
        SeedSource::Knn => "semantic"@,
        SeedSource::Lexical => "lexical"@,
    }
}

/// The name of a search in an answer.
pub fn seed_source_display(source: SeedSource) -> (r: &'static str)
    ensures
        r@ == source_name(source),
{
    match source {
        SeedSource::Exact => "exact-name",
        SeedSource::Knn => "semantic",
        SeedSource::Lexical => "lexical",
    }
}

// ---------------------------------------------------------------- laws

/// A node that the query gave is never shown as a mere neighbour, and one that it did not give is
/// never shown as a seed.
pub proof fn law_only_seeds_of_the_query_are_seeds(
    store: Store,
    seeds: Seq<Weighted>,
    primary: Seq<u64>,
    id: u64,
)
    ensures
        role(store, seeds, primary, id) == NodeRole::Seed ==> primary.contains(id),
        primary.contains(id) && crate::seeds::has_id(seeds, id) ==> role(store, seeds, primary, id)
            == NodeRole::Seed,
    decreases seeds.len(),
{
    lemma_first_link(store, seeds, id);
}

proof fn lemma_first_link(store: Store, seeds: Seq<Weighted>, id: u64)
    ensures
        first_link(store, seeds, id) matches Some(x) ==> x.0 != NodeRole::Seed,
    decreases seeds.len(),
{
    if seeds.len() > 0 {
        lemma_first_link(store, seeds.drop_last(), id);
    }
}

/// A test is shown among the tests, however it was found.
pub proof fn law_tests_never_lead(n: Node, source: Option<SeedSource>, primary: Seq<u64>)
    ensures
        n.is_test <==> section(n, source, primary) == MatchSource::Tests,
{
}

} // verus!
