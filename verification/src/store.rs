//! The code graph as the tools read it: nodes, edges, and what the database answered.

use vstd::prelude::*;

use crate::retrieval::Retrieval;
use crate::text::same;

verus! {

/// The relation that an edge records between two nodes.
#[derive(Debug, Clone, Copy, PartialEq, Eq, Structural)]
pub enum EdgeKind {
    DefinesBinding,
    RefCall,
    Depends,
    ResolvesTo,
    Exports,
    RefImports,
    IsImplementation,
    Overrides,
    FFICall,
    Configures,
    ExternalDependency,
}

/// A directed edge between two nodes.
#[derive(Debug, Clone, Copy, PartialEq, Eq, Structural)]
pub struct Edge {
    pub src: u64,
    pub dst: u64,
    pub kind: EdgeKind,
}

/// A symbol, a file or another indexed thing.
#[derive(Debug)]
pub struct Node {
    pub id: u64,
    pub kind: String,
    pub signature: String,
    pub path: String,
    pub corpus: String,
    pub language: String,
    pub package: String,
    pub line: Option<u32>,
    pub end_line: Option<u32>,
    /// The index classified the node as a test.
    pub is_test: bool,
    /// The index classified the node as structural noise (build output, vendored or test trees).
    pub is_noise: bool,
    /// What the node's line costs in an answer, in tokens.
    pub token_cost: usize,
}

impl Clone for Node {
    fn clone(&self) -> (r: Self)
        ensures
            r == *self,
    {
        Node {
            id: self.id,
            kind: self.kind.clone(),
            signature: self.signature.clone(),
            path: self.path.clone(),
            corpus: self.corpus.clone(),
            language: self.language.clone(),
            package: self.package.clone(),
            line: self.line,
            end_line: self.end_line,
            is_test: self.is_test,
            is_noise: self.is_noise,
            token_cost: self.token_cost,
        }
    }
}

/// Copies a list of nodes.
pub fn copy_nodes(v: &Vec<Node>) -> (r: Vec<Node>)
    ensures
        r@ == v@,
{
    let mut r: Vec<Node> = Vec::new();
    let mut i: usize = 0;
    while i < v.len()
        invariant
            i <= v@.len(),
            r@ == v@.take(i as int),
        decreases v@.len() - i,
    {
        r.push(v[i].clone());
        i += 1;
        assert(v@.take(i as int) =~= v@.take(i - 1).push(v@[i - 1]));
    }
    assert(v@.take(i as int) =~= v@);
    r
}

/// The nodes that a test holds of, in order.
pub open spec fn kept(nodes: Seq<Node>, p: spec_fn(Node) -> bool) -> Seq<Node>
    decreases nodes.len(),
{
    if nodes.len() == 0 {
        Seq::empty()
    } else if p(nodes.last()) {
        kept(nodes.drop_last(), p).push(nodes.last())
    } else {
        kept(nodes.drop_last(), p)
    }
}

/// Keeps the nodes that a test holds of.
pub(crate) fn keep<F: Fn(&Node) -> bool>(
    nodes: &Vec<Node>,
    f: F,
    Ghost(p): Ghost<spec_fn(Node) -> bool>,
) -> (r: Vec<Node>)
    requires
        forall|n: &Node| call_requires(f, (n,)),
        forall|n: &Node, b: bool| #[trigger] call_ensures(f, (n,), b) ==> b == p(*n),
    ensures
        r@ == kept(nodes@, p),
{
    let mut r: Vec<Node> = Vec::new();
    let mut i: usize = 0;
    while i < nodes.len()
        invariant
            i <= nodes@.len(),
            forall|n: &Node| call_requires(f, (n,)),
            forall|n: &Node, b: bool| #[trigger] call_ensures(f, (n,), b) ==> b == p(*n),
            r@ == kept(nodes@.take(i as int), p),
        decreases nodes@.len() - i,
    {
        assert(nodes@.take(i + 1).drop_last() =~= nodes@.take(i as int));
        if f(&nodes[i]) {
            r.push(nodes[i].clone());
        }
        i += 1;
    }
    assert(nodes@.take(i as int) =~= nodes@);
    r
}

/// Some node passes a test exactly where something is kept.
pub proof fn lemma_kept(nodes: Seq<Node>, p: spec_fn(Node) -> bool)
    ensures
        forall|n: Node| #[trigger] kept(nodes, p).contains(n) <==> nodes.contains(n) && p(n),
        kept(nodes, p).len() <= nodes.len(),
    decreases nodes.len(),
{
    if nodes.len() > 0 {
        let q = nodes.drop_last();
        lemma_kept(q, p);
        assert(nodes =~= q.push(nodes.last()));
        assert forall|n: Node| #[trigger] kept(nodes, p).contains(n) <==> nodes.contains(n) && p(
            n,
        ) by {
            lemma_push_contains(q, nodes.last(), n);
            lemma_push_contains(kept(q, p), nodes.last(), n);
            assert(kept(q, p).contains(n) <==> q.contains(n) && p(n));
        }
    }
}

/// One answer of the search by name.
#[derive(Debug)]
pub struct NameSearch {
    pub term: String,
    /// The matching nodes, best first; `None` where the search failed.
    pub hits: Option<Vec<Node>>,
}

/// One answer of the lookup by exact signature.
#[derive(Debug)]
pub struct ExactLookup {
    pub signature: String,
    pub path: Option<String>,
    /// The matching nodes, those of the wanted path first; empty where the lookup failed.
    pub hits: Vec<Node>,
}

/// One answer of the fuzzy search.
#[derive(Debug)]
pub struct FuzzySearch {
    pub term: String,
    pub language: Option<String>,
    pub exact: bool,
    /// The matching nodes, best first; `None` where the search failed.
    pub hits: Option<Vec<Node>>,
}

/// A place where a symbol is used.
#[derive(Debug)]
pub struct Site {
    pub target: u64,
    pub path: String,
    pub line: u32,
}

/// The lines on which the body of one symbol names another.
#[derive(Debug)]
pub struct CallSites {
    pub caller: u64,
    pub callee: String,
    pub lines: Vec<u32>,
}

/// How many files of a language carry occurrence data.
#[derive(Debug)]
pub struct Coverage {
    pub language: String,
    pub with_occurrences: u32,
    pub total: u32,
}

/// An import statement.
#[derive(Debug)]
pub struct Import {
    pub id: u64,
    pub signature: String,
    pub language: String,
    pub path: String,
    /// The files that the import rules of the language resolve it to.
    pub resolves_to: Vec<String>,
}

/// The rendered source of a node or of a range of lines.
#[derive(Debug)]
pub struct SourceText {
    pub path: String,
    pub kind: String,
    pub line: Option<u32>,
    pub end_line: Option<u32>,
    /// The whole range.
    pub full: Option<String>,
    /// The range up to the line cap of the node's kind.
    pub capped: Option<String>,
    /// The outline of the definition.
    pub skeleton: Option<String>,
    /// The line cap of the node's kind.
    pub line_cap: usize,
}

/// One step of a graph walk.
#[derive(Debug, Clone, Copy, PartialEq, Eq, Structural)]
pub struct Step {
    pub kind: EdgeKind,
    pub next: u64,
    /// The walk goes on behind the next node.
    pub expand: bool,
}

/// The steps that a graph walk takes from a node.
#[derive(Debug)]
pub struct Steps {
    pub from: u64,
    /// The walk goes against the edges.
    pub callers: bool,
    /// The walk starts at the node.
    pub first: bool,
    pub steps: Vec<Step>,
}

/// One answer of the path search between two nodes.
#[derive(Debug)]
pub struct PathAnswer {
    pub source: u64,
    pub sink: u64,
    /// The nodes on the path, or around the source where there is no path; `None` where the
    /// search failed.
    pub nodes: Option<Vec<Node>>,
}

/// What a textual search gave.
#[derive(Debug)]
pub enum GrepOutcome {
    /// The listed matches.
    Matches(String),
    NoMatches,
    /// Why the search could not run.
    Error(String),
}

/// The outcome of one textual search.
#[derive(Debug)]
pub struct GrepRecord {
    pub pattern: String,
    /// The paths that the search was confined to; none for the whole repository.
    pub pathspecs: Vec<String>,
    /// The pattern is a literal text.
    pub fixed: bool,
    pub outcome: GrepOutcome,
}

/// The graph of one repository, and what its database and analysers answered.
#[derive(Debug)]
pub struct Store {
    pub nodes: Vec<Node>,
    /// A scan over all nodes failed.
    pub scan_failed: bool,
    pub edges: Vec<Edge>,
    /// The nodes whose incoming edges could not be read.
    pub unread_incoming: Vec<u64>,
    pub name_searches: Vec<NameSearch>,
    pub exact_lookups: Vec<ExactLookup>,
    pub fuzzy_searches: Vec<FuzzySearch>,
    pub meta: Vec<(String, String)>,
    pub sites: Vec<Site>,
    pub call_sites: Vec<CallSites>,
    /// The languages with at least one recorded occurrence.
    pub occurrence_languages: Vec<String>,
    /// The files with at least one recorded occurrence.
    pub occurrence_files: Vec<String>,
    pub coverage: Vec<Coverage>,
    /// The languages with at least one call edge.
    pub call_languages: Vec<String>,
    pub imports: Vec<Import>,
    /// The resolved dependencies between files: the first needs the second.
    pub dep_pairs: Vec<(String, String)>,
    pub sources: Vec<SourceText>,
    pub steps: Vec<Steps>,
    pub path_answers: Vec<PathAnswer>,
    /// Any call edge is recorded.
    pub has_calls: bool,
    /// The number of nodes; `None` where it could not be read.
    pub node_total: Option<u64>,
    /// The number of edges; `None` where it could not be read.
    pub edge_total: Option<u64>,
    /// The version of the schema; `None` where it could not be read.
    pub schema_version: Option<u64>,
    /// The nodes per language, most first; `None` where they could not be read.
    pub languages: Option<Vec<(String, u64)>>,
    /// The synonym pairs; `None` where they could not be read.
    pub synonyms: Option<Vec<(String, String)>>,
    pub greps: Vec<GrepRecord>,
    /// An index of embeddings exists.
    pub embed_initialized: bool,
    pub retrievals: Vec<Retrieval>,
}

impl Store {
    /// A graph without content.
    pub fn new() -> (r: Store)
        ensures
            r.nodes@.len() == 0,
            !r.scan_failed,
            r.edges@.len() == 0,
            r.unread_incoming@.len() == 0,
            r.name_searches@.len() == 0,
            r.exact_lookups@.len() == 0,
            r.fuzzy_searches@.len() == 0,
            r.meta@.len() == 0,
            r.sites@.len() == 0,
            r.call_sites@.len() == 0,
            r.occurrence_languages@.len() == 0,
            r.occurrence_files@.len() == 0,
            r.coverage@.len() == 0,
            r.call_languages@.len() == 0,
            r.imports@.len() == 0,
            r.dep_pairs@.len() == 0,
            r.sources@.len() == 0,
            r.steps@.len() == 0,
            r.path_answers@.len() == 0,
            !r.has_calls,
            r.node_total == Some(0u64),
            r.edge_total == Some(0u64),
            r.schema_version is None,
            r.languages is None,
            r.synonyms is None,
            r.greps@.len() == 0,
            !r.embed_initialized,
            r.retrievals@.len() == 0,
    {
        Store {
            nodes: Vec::new(),
            scan_failed: false,
            edges: Vec::new(),
            unread_incoming: Vec::new(),
            name_searches: Vec::new(),
            exact_lookups: Vec::new(),
            fuzzy_searches: Vec::new(),
            meta: Vec::new(),
            sites: Vec::new(),
            call_sites: Vec::new(),
            occurrence_languages: Vec::new(),
            occurrence_files: Vec::new(),
            coverage: Vec::new(),
            call_languages: Vec::new(),
            imports: Vec::new(),
            dep_pairs: Vec::new(),
            sources: Vec::new(),
            steps: Vec::new(),
            path_answers: Vec::new(),
            has_calls: false,
            node_total: Some(0),
            edge_total: Some(0),
            schema_version: None,
            languages: None,
            synonyms: None,
            greps: Vec::new(),
            embed_initialized: false,
            retrievals: Vec::new(),
        }
    }
}

// ---------------------------------------------------------------- nodes by id

/// A node put in its place among nodes with ascending ids; a node whose id is taken is left out.
pub open spec fn placed(v: Seq<Node>, n: Node) -> Seq<Node>
    decreases v.len(),
{
    if v.len() == 0 {
        seq![n]
    } else if v.last().id < n.id {
        v.push(n)
    } else if v.last().id == n.id {
        v
    } else {
        placed(v.drop_last(), n).push(v.last())
    }
}

/// The nodes by ascending id, of those with one id the first.
pub open spec fn by_id(nodes: Seq<Node>) -> Seq<Node>
    decreases nodes.len(),
{
    if nodes.len() == 0 {
        Seq::empty()
    } else {
        placed(by_id(nodes.drop_last()), nodes.last())
    }
}

proof fn lemma_placed_skip(v: Seq<Node>, n: Node, i: int)
    requires
        0 <= i <= v.len(),
        forall|j: int| i <= j < v.len() ==> #[trigger] v[j].id > n.id,
    ensures
        placed(v, n) == placed(v.take(i), n) + v.skip(i),
    decreases v.len() - i,
{
    if i < v.len() {
        lemma_placed_skip(v.drop_last(), n, i);
        assert(v.drop_last().take(i) =~= v.take(i));
        assert(v.drop_last().skip(i).push(v.last()) =~= v.skip(i));
        assert(v.last() == v[v.len() - 1]);
        assert((placed(v.take(i), n) + v.drop_last().skip(i)).push(v.last()) =~= placed(
            v.take(i),
            n,
        ) + v.skip(i));
    } else {
        assert(v.take(i) =~= v);
        assert(placed(v, n) + v.skip(i) =~= placed(v, n));
    }
}

proof fn lemma_placed(v: Seq<Node>, n: Node)
    requires
        forall|i: int, j: int| 0 <= i < j < v.len() ==> v[i].id < v[j].id,
    ensures
        forall|i: int, j: int|
            0 <= i < j < placed(v, n).len() ==> placed(v, n)[i].id < placed(v, n)[j].id,
        forall|i: int| 0 <= i < placed(v, n).len() ==> placed(v, n)[i] == n || v.contains(
            #[trigger] placed(v, n)[i],
        ),
    decreases v.len(),
{
    if v.len() > 0 && v.last().id > n.id {
        let q = placed(v.drop_last(), n);
        lemma_placed(v.drop_last(), n);
        assert forall|i: int| 0 <= i < q.len() implies #[trigger] q[i].id < v.last().id by {
            if q[i] != n {
                let k = choose|k: int| 0 <= k < v.drop_last().len() && v.drop_last()[k] == q[i];
                assert(v[k].id < v[v.len() - 1].id);
            }
        }
        assert forall|i: int| 0 <= i < placed(v, n).len() implies placed(v, n)[i] == n || v.contains(
            #[trigger] placed(v, n)[i],
        ) by {
            if i < q.len() && q[i] != n {
                let k = choose|k: int| 0 <= k < v.drop_last().len() && v.drop_last()[k] == q[i];
                assert(v[k] == q[i]);
            } else if i == q.len() {
                assert(v[v.len() - 1] == v.last());
            }
        }
    }
}

/// The ids of a list by id ascend without repetition.
pub proof fn lemma_by_id(nodes: Seq<Node>)
    ensures
        forall|i: int, j: int|
            0 <= i < j < by_id(nodes).len() ==> by_id(nodes)[i].id < by_id(nodes)[j].id,
        forall|i: int| 0 <= i < by_id(nodes).len() ==> nodes.contains(#[trigger] by_id(nodes)[i]),
    decreases nodes.len(),
{
    if nodes.len() > 0 {
        let q = nodes.drop_last();
        lemma_by_id(q);
        lemma_placed(by_id(q), nodes.last());
        assert forall|i: int| 0 <= i < by_id(nodes).len() implies nodes.contains(
            #[trigger] by_id(nodes)[i],
        ) by {
            let n = by_id(nodes)[i];
            if n == nodes.last() {
                assert(nodes[nodes.len() - 1] == n);
            } else {
                assert(by_id(q).contains(n));
                let k = choose|k: int| 0 <= k < by_id(q).len() && by_id(q)[k] == n;
                assert(q.contains(by_id(q)[k]));
                let m = choose|m: int| 0 <= m < q.len() && q[m] == n;
                assert(nodes[m] == n);
            }
        }
    }
}

/// Puts a node in its place among nodes with ascending ids.
fn place(v: &mut Vec<Node>, n: &Node)
    ensures
        final(v)@ == placed(old(v)@, *n),
{
    let mut i: usize = v.len();
    while i > 0 && v[i - 1].id > n.id
        invariant
            i <= v@.len(),
            v@ == old(v)@,
            forall|j: int| i <= j < v@.len() ==> #[trigger] v@[j].id > n.id,
        decreases i,
    {
        i -= 1;
    }
    proof {
        lemma_placed_skip(v@, *n, i as int);
    }
    if i > 0 && v[i - 1].id == n.id {
        assert(v@.take(i as int).last() == v@[i - 1]);
        assert(v@.take(i as int) + v@.skip(i as int) =~= v@);
    } else {
        let ghost was = v@;
        v.insert(i, n.clone());
        proof {
            if i > 0 {
                assert(was.take(i as int).last() == was[i - 1]);
            }
            assert(placed(was.take(i as int), *n) =~= was.take(i as int).push(*n));
            assert(v@ =~= was.take(i as int).push(*n) + was.skip(i as int));
        }
    }
}

/// Sorts nodes by id and leaves out repetitions.
pub fn sort_by_id(nodes: &Vec<Node>) -> (r: Vec<Node>)
    ensures
        r@ == by_id(nodes@),
{
    let mut r: Vec<Node> = Vec::new();
    let mut i: usize = 0;
    while i < nodes.len()
        invariant
            i <= nodes@.len(),
            r@ == by_id(nodes@.take(i as int)),
        decreases nodes@.len() - i,
    {
        assert(nodes@.take(i + 1).drop_last() =~= nodes@.take(i as int));
        place(&mut r, &nodes[i]);
        i += 1;
    }
    assert(nodes@.take(i as int) =~= nodes@);
    r
}

/// The first node with the given id.
pub open spec fn find_node(nodes: Seq<Node>, id: u64) -> Option<Node>
    decreases nodes.len(),
{
    if nodes.len() == 0 {
        None
    } else if find_node(nodes.drop_last(), id) is Some {
        find_node(nodes.drop_last(), id)
    } else if nodes.last().id == id {
        Some(nodes.last())
    } else {
        None
    }
}

pub proof fn lemma_find_node(nodes: Seq<Node>, id: u64)
    ensures
        find_node(nodes, id) matches Some(n) ==> n.id == id && nodes.contains(n),
        find_node(nodes, id) is None ==> forall|i: int| 0 <= i < nodes.len() ==> nodes[i].id != id,
    decreases nodes.len(),
{
    if nodes.len() > 0 {
        lemma_find_node(nodes.drop_last(), id);
        if find_node(nodes.drop_last(), id) is Some {
            let n = find_node(nodes.drop_last(), id)->0;
            let i = choose|i: int| 0 <= i < nodes.drop_last().len() && nodes.drop_last()[i] == n;
            assert(nodes[i] == n);
        } else if nodes.last().id == id {
            assert(nodes[nodes.len() - 1] == nodes.last());
        } else {
            assert forall|i: int| 0 <= i < nodes.len() implies nodes[i].id != id by {
                if i < nodes.len() - 1 {
                    assert(nodes.drop_last()[i] == nodes[i]);
                }
            }
        }
    }
}

impl Store {
    pub open spec fn node(self, id: u64) -> Option<Node> {
        find_node(self.nodes@, id)
    }

    /// The node with the given id.
    pub fn get_node(&self, id: u64) -> (r: Option<&Node>)
        ensures
            r is Some == self.node(id) is Some,
            r matches Some(n) ==> self.node(id) == Some(*n) && n.id == id,
    {
        let mut i: usize = 0;
        let mut r: Option<&Node> = None;
        while i < self.nodes.len()
            invariant
                i <= self.nodes@.len(),
                r is Some == find_node(self.nodes@.take(i as int), id) is Some,
                r matches Some(n) ==> find_node(self.nodes@.take(i as int), id) == Some(*n) && n.id
                    == id,
            decreases self.nodes@.len() - i,
        {
            if r.is_none() && self.nodes[i].id == id {
                r = Some(&self.nodes[i]);
            }
            i += 1;
            assert(self.nodes@.take(i as int).drop_last() =~= self.nodes@.take(i - 1));
        }
        assert(self.nodes@.take(i as int) =~= self.nodes@);
        r
    }
}

// ---------------------------------------------------------------- edges

/// The edges that leave a node, in stored order.
pub open spec fn leaving(edges: Seq<Edge>, id: u64) -> Seq<Edge>
    decreases edges.len(),
{
    if edges.len() == 0 {
        Seq::empty()
    } else if edges.last().src == id {
        leaving(edges.drop_last(), id).push(edges.last())
    } else {
        leaving(edges.drop_last(), id)
    }
}

/// The edges that enter a node, in stored order.
pub open spec fn entering(edges: Seq<Edge>, id: u64) -> Seq<Edge>
    decreases edges.len(),
{
    if edges.len() == 0 {
        Seq::empty()
    } else if edges.last().dst == id {
        entering(edges.drop_last(), id).push(edges.last())
    } else {
        entering(edges.drop_last(), id)
    }
}

pub proof fn lemma_entering(edges: Seq<Edge>, id: u64)
    ensures
        forall|e: Edge| #[trigger] entering(edges, id).contains(e) <==> edges.contains(e) && e.dst
            == id,
    decreases edges.len(),
{
    if edges.len() > 0 {
        let p = edges.drop_last();
        lemma_entering(p, id);
        assert(edges =~= p.push(edges.last()));
        assert forall|e: Edge| #[trigger] entering(edges, id).contains(e) <==> edges.contains(e)
            && e.dst == id by {
            lemma_push_contains(p, edges.last(), e);
            lemma_push_contains(entering(p, id), edges.last(), e);
            assert(entering(p, id).contains(e) <==> p.contains(e) && e.dst == id);
        }
    }
}

pub proof fn lemma_push_contains<A>(s: Seq<A>, x: A, e: A)
    ensures
        s.push(x).contains(e) <==> s.contains(e) || e == x,
{
    let p = s.push(x);
    if s.contains(e) {
        let i = choose|i: int| 0 <= i < s.len() && s[i] == e;
        assert(p[i] == e);
    }
    if e == x {
        assert(p[s.len() as int] == e);
    }
    if p.contains(e) {
        let i = choose|i: int| 0 <= i < p.len() && p[i] == e;
        if i < s.len() {
            assert(s[i] == e);
        }
    }
}

impl Store {
    /// The edges that leave a node.
    pub fn edges_from(&self, id: u64) -> (r: Vec<Edge>)
        ensures
            r@ == leaving(self.edges@, id),
    {
        let mut r: Vec<Edge> = Vec::new();
        let mut i: usize = 0;
        while i < self.edges.len()
            invariant
                i <= self.edges@.len(),
                r@ == leaving(self.edges@.take(i as int), id),
            decreases self.edges@.len() - i,
        {
            if self.edges[i].src == id {
                r.push(self.edges[i]);
            }
            i += 1;
            assert(self.edges@.take(i as int).drop_last() =~= self.edges@.take(i - 1));
        }
        assert(self.edges@.take(i as int) =~= self.edges@);
        r
    }

    /// The edges that enter a node and could be read.
    pub open spec fn arriving(self, id: u64) -> Seq<Edge> {
        if self.unread_incoming@.contains(id) {
            Seq::empty()
        } else {
            entering(self.edges@, id)
        }
    }

    /// Whether the incoming edges of a node could not be read.
    pub fn is_unread(&self, id: u64) -> (r: bool)
        ensures
            r == self.unread_incoming@.contains(id),
    {
        let mut i: usize = 0;
        while i < self.unread_incoming.len()
            invariant
                i <= self.unread_incoming@.len(),
                forall|j: int| 0 <= j < i ==> self.unread_incoming@[j] != id,
            decreases self.unread_incoming@.len() - i,
        {
            if self.unread_incoming[i] == id {
                return true;
            }
            i += 1;
        }
        false
    }

    /// The edges that enter a node; none where they could not be read.
    pub fn edges_to(&self, id: u64) -> (r: Vec<Edge>)
        ensures
            r@ == self.arriving(id),
    {
        let mut r: Vec<Edge> = Vec::new();
        if self.is_unread(id) {
            return r;
        }
        let mut i: usize = 0;
        while i < self.edges.len()
            invariant
                i <= self.edges@.len(),
                r@ == entering(self.edges@.take(i as int), id),
            decreases self.edges@.len() - i,
        {
            if self.edges[i].dst == id {
                r.push(self.edges[i]);
            }
            i += 1;
            assert(self.edges@.take(i as int).drop_last() =~= self.edges@.take(i - 1));
        }
        assert(self.edges@.take(i as int) =~= self.edges@);
        r
    }
}

// ---------------------------------------------------------------- recorded answers

/// The value recorded for a key, the first one where there are several.
pub open spec fn meta_of(meta: Seq<(String, String)>, key: Seq<char>) -> Option<Seq<char>>
    decreases meta.len(),
{
    if meta.len() == 0 {
        None
    } else if meta_of(meta.drop_last(), key) is Some {
        meta_of(meta.drop_last(), key)
    } else if meta.last().0@ == key {
        Some(meta.last().1@)
    } else {
        None
    }
}

/// The answer recorded for a search term; a term that was not searched has no hits.
pub open spec fn hits_of(searches: Seq<NameSearch>, term: Seq<char>) -> Option<Seq<Node>>
    decreases searches.len(),
{
    if searches.len() == 0 {
        Some(Seq::empty())
    } else if searches.last().term@ == term {
        match searches.last().hits {
            Some(v) => Some(v@),
            None => None,
        }
    } else {
        hits_of(searches.drop_last(), term)
    }
}

/// Two optional texts are both absent or the same.
pub open spec fn same_opt(a: Option<String>, b: Option<Seq<char>>) -> bool {
    match (a, b) {
        (Some(x), Some(y)) => x@ == y,
        (None, None) => true,
        _ => false,
    }
}

pub open spec fn opt_view(a: Option<&str>) -> Option<Seq<char>> {
    match a {
        Some(x) => Some(x@),
        None => None,
    }
}

fn same_option(a: &Option<String>, b: Option<&str>) -> (r: bool)
    ensures
        r == same_opt(*a, opt_view(b)),
{
    match (a, b) {
        (Some(x), Some(y)) => same(x.as_str(), y),
        (None, None) => true,
        _ => false,
    }
}

/// The answer recorded for an exact lookup.
pub open spec fn exact_of(
    lookups: Seq<ExactLookup>,
    signature: Seq<char>,
    path: Option<Seq<char>>,
) -> Seq<Node>
    decreases lookups.len(),
{
    if lookups.len() == 0 {
        Seq::empty()
    } else if lookups.last().signature@ == signature && same_opt(lookups.last().path, path) {
        lookups.last().hits@
    } else {
        exact_of(lookups.drop_last(), signature, path)
    }
}

/// The sites that use one symbol.
pub open spec fn sites_of(sites: Seq<Site>, id: u64) -> Seq<Site>
    decreases sites.len(),
{
    if sites.len() == 0 {
        Seq::empty()
    } else if sites.last().target == id {
        sites_of(sites.drop_last(), id).push(sites.last())
    } else {
        sites_of(sites.drop_last(), id)
    }
}

/// The lines recorded for a pair of symbols.
pub open spec fn call_lines_of(v: Seq<CallSites>, caller: u64, callee: Seq<char>) -> Seq<u32>
    decreases v.len(),
{
    if v.len() == 0 {
        Seq::empty()
    } else if v.last().caller == caller && v.last().callee@ == callee {
        v.last().lines@
    } else {
        call_lines_of(v.drop_last(), caller, callee)
    }
}

/// The coverage recorded for a language; none where nothing is recorded.
pub open spec fn coverage_of(v: Seq<Coverage>, language: Seq<char>) -> (u32, u32)
    decreases v.len(),
{
    if v.len() == 0 {
        (0, 0)
    } else if v.last().language@ == language {
        (v.last().with_occurrences, v.last().total)
    } else {
        coverage_of(v.drop_last(), language)
    }
}

/// The answer recorded for a fuzzy search.
pub open spec fn fuzzy_of(
    searches: Seq<FuzzySearch>,
    term: Seq<char>,
    language: Option<Seq<char>>,
    exact: bool,
) -> Option<Seq<Node>>
    decreases searches.len(),
{
    if searches.len() == 0 {
        Some(Seq::empty())
    } else if searches.last().term@ == term && same_opt(searches.last().language, language)
        && searches.last().exact == exact {
        match searches.last().hits {
            Some(v) => Some(v@),
            None => None,
        }
    } else {
        fuzzy_of(searches.drop_last(), term, language, exact)
    }
}

impl Store {
    pub open spec fn meta_value(self, key: Seq<char>) -> Option<Seq<char>> {
        meta_of(self.meta@, key)
    }

    pub open spec fn name_hits(self, term: Seq<char>) -> Option<Seq<Node>> {
        hits_of(self.name_searches@, term)
    }

    pub open spec fn exact_hits(self, signature: Seq<char>, path: Option<Seq<char>>) -> Seq<Node> {
        exact_of(self.exact_lookups@, signature, path)
    }

    pub open spec fn fuzzy_hits(
        self,
        term: Seq<char>,
        language: Option<Seq<char>>,
        exact: bool,
    ) -> Option<Seq<Node>> {
        fuzzy_of(self.fuzzy_searches@, term, language, exact)
    }

    /// The recorded value of a key.
    pub fn get_meta(&self, key: &str) -> (r: Option<&String>)
        ensures
            r is Some == self.meta_value(key@) is Some,
            r matches Some(v) ==> self.meta_value(key@) == Some(v@),
    {
        let mut i: usize = 0;
        let mut r: Option<&String> = None;
        while i < self.meta.len()
            invariant
                i <= self.meta@.len(),
                r is Some == meta_of(self.meta@.take(i as int), key@) is Some,
                r matches Some(v) ==> meta_of(self.meta@.take(i as int), key@) == Some(v@),
            decreases self.meta@.len() - i,
        {
            if r.is_none() && same(self.meta[i].0.as_str(), key) {
                r = Some(&self.meta[i].1);
            }
            i += 1;
            assert(self.meta@.take(i as int).drop_last() =~= self.meta@.take(i - 1));
        }
        assert(self.meta@.take(i as int) =~= self.meta@);
        r
    }

    /// The uses of a symbol, in stored order.
    pub open spec fn uses(self, id: u64) -> Seq<Site> {
        sites_of(self.sites@, id)
    }

    /// The uses of a symbol.
    pub fn reference_sites(&self, id: u64) -> (r: Vec<&Site>)
        ensures
            r@.len() == self.uses(id).len(),
            forall|k: int| 0 <= k < r@.len() ==> *#[trigger] r@[k] == self.uses(id)[k],
    {
        let mut r: Vec<&Site> = Vec::new();
        let mut i: usize = 0;
        while i < self.sites.len()
            invariant
                i <= self.sites@.len(),
                r@.len() == sites_of(self.sites@.take(i as int), id).len(),
                forall|k: int|
                    0 <= k < r@.len() ==> *#[trigger] r@[k] == sites_of(
                        self.sites@.take(i as int),
                        id,
                    )[k],
            decreases self.sites@.len() - i,
        {
            assert(self.sites@.take(i + 1).drop_last() =~= self.sites@.take(i as int));
            if self.sites[i].target == id {
                r.push(&self.sites[i]);
            }
            i += 1;
        }
        assert(self.sites@.take(i as int) =~= self.sites@);
        r
    }

    /// The lines on which one symbol names another.
    pub open spec fn call_lines(self, caller: u64, callee: Seq<char>) -> Seq<u32> {
        call_lines_of(self.call_sites@, caller, callee)
    }

    /// The lines on which the body of `caller` names `callee`.
    pub fn call_site_lines(&self, caller: u64, callee: &str) -> (r: Vec<u32>)
        ensures
            r@ == self.call_lines(caller, callee@),
    {
        let mut i: usize = self.call_sites.len();
        assert(self.call_sites@.take(i as int) =~= self.call_sites@);
        while i > 0
            invariant
                i <= self.call_sites@.len(),
                call_lines_of(self.call_sites@, caller, callee@) == call_lines_of(
                    self.call_sites@.take(i as int),
                    caller,
                    callee@,
                ),
            decreases i,
        {
            let s = &self.call_sites[i - 1];
            if s.caller == caller && same(s.callee.as_str(), callee) {
                let mut r: Vec<u32> = Vec::new();
                let mut k: usize = 0;
                while k < s.lines.len()
                    invariant
                        k <= s.lines@.len(),
                        r@ == s.lines@.take(k as int),
                    decreases s.lines@.len() - k,
                {
                    r.push(s.lines[k]);
                    k += 1;
                    assert(s.lines@.take(k as int) =~= s.lines@.take(k - 1).push(s.lines@[k - 1]));
                }
                assert(s.lines@.take(k as int) =~= s.lines@);
                return r;
            }
            i -= 1;
            assert(self.call_sites@.take(i + 1).drop_last() =~= self.call_sites@.take(i as int));
        }
        let r: Vec<u32> = Vec::new();
        assert(r@ =~= Seq::<u32>::empty());
        r
    }

    /// How many files of a language carry occurrence data, and how many there are.
    pub open spec fn covered(self, language: Seq<char>) -> (u32, u32) {
        coverage_of(self.coverage@, language)
    }

    /// The occurrence coverage of a language.
    pub fn language_occurrence_coverage(&self, language: &str) -> (r: (u32, u32))
        ensures
            r == self.covered(language@),
    {
        let mut i: usize = self.coverage.len();
        assert(self.coverage@.take(i as int) =~= self.coverage@);
        while i > 0
            invariant
                i <= self.coverage@.len(),
                coverage_of(self.coverage@, language@) == coverage_of(
                    self.coverage@.take(i as int),
                    language@,
                ),
            decreases i,
        {
            let c = &self.coverage[i - 1];
            if same(c.language.as_str(), language) {
                return (c.with_occurrences, c.total);
            }
            i -= 1;
            assert(self.coverage@.take(i + 1).drop_last() =~= self.coverage@.take(i as int));
        }
        (0, 0)
    }

    /// The nodes that match a name, best first; `None` where the search failed.
    pub fn search_nodes_by_name(&self, term: &str) -> (r: Option<Vec<Node>>)
        ensures
            r is Some == self.name_hits(term@) is Some,
            r matches Some(v) ==> self.name_hits(term@) == Some(v@),
    {
        let mut i: usize = self.name_searches.len();
        assert(self.name_searches@.take(i as int) =~= self.name_searches@);
        while i > 0
            invariant
                i <= self.name_searches@.len(),
                hits_of(self.name_searches@, term@) == hits_of(
                    self.name_searches@.take(i as int),
                    term@,
                ),
            decreases i,
        {
            let s = &self.name_searches[i - 1];
            if same(s.term.as_str(), term) {
                return match &s.hits {
                    Some(v) => Some(copy_nodes(v)),
                    None => None,
                };
            }
            i -= 1;
            assert(self.name_searches@.take(i + 1).drop_last() =~= self.name_searches@.take(
                i as int,
            ));
        }
        let r: Vec<Node> = Vec::new();
        assert(r@ =~= Seq::<Node>::empty());
        Some(r)
    }

    /// The nodes with exactly the given signature, those of the wanted path first.
    pub fn lookup_nodes_exact(&self, signature: &str, path: Option<&str>) -> (r: Vec<Node>)
        ensures
            r@ == self.exact_hits(signature@, opt_view(path)),
    {
        let mut i: usize = self.exact_lookups.len();
        assert(self.exact_lookups@.take(i as int) =~= self.exact_lookups@);
        while i > 0
            invariant
                i <= self.exact_lookups@.len(),
                exact_of(self.exact_lookups@, signature@, opt_view(path)) == exact_of(
                    self.exact_lookups@.take(i as int),
                    signature@,
                    opt_view(path),
                ),
            decreases i,
        {
            let s = &self.exact_lookups[i - 1];
            if same(s.signature.as_str(), signature) && same_option(&s.path, path) {
                return copy_nodes(&s.hits);
            }
            i -= 1;
            assert(self.exact_lookups@.take(i + 1).drop_last() =~= self.exact_lookups@.take(
                i as int,
            ));
        }
        let r: Vec<Node> = Vec::new();
        assert(r@ =~= Seq::<Node>::empty());
        r
    }

    /// The nodes that match a name loosely, best first; `None` where the search failed.
    pub fn search_nodes_fuzzy(&self, term: &str, language: Option<&str>, exact: bool) -> (r: Option<
        Vec<Node>,
    >)
        ensures
            r is Some == self.fuzzy_hits(term@, opt_view(language), exact) is Some,
            r matches Some(v) ==> self.fuzzy_hits(term@, opt_view(language), exact) == Some(v@),
    {
        let mut i: usize = self.fuzzy_searches.len();
        assert(self.fuzzy_searches@.take(i as int) =~= self.fuzzy_searches@);
        while i > 0
            invariant
                i <= self.fuzzy_searches@.len(),
                fuzzy_of(self.fuzzy_searches@, term@, opt_view(language), exact) == fuzzy_of(
                    self.fuzzy_searches@.take(i as int),
                    term@,
                    opt_view(language),
                    exact,
                ),
            decreases i,
        {
            let s = &self.fuzzy_searches[i - 1];
            if same(s.term.as_str(), term) && same_option(&s.language, language) && s.exact == exact {
                return match &s.hits {
                    Some(v) => Some(copy_nodes(v)),
                    None => None,
                };
            }
            i -= 1;
            assert(self.fuzzy_searches@.take(i + 1).drop_last() =~= self.fuzzy_searches@.take(
                i as int,
            ));
        }
        let r: Vec<Node> = Vec::new();
        assert(r@ =~= Seq::<Node>::empty());
        Some(r)
    }
}

} // verus!
