//! Walks through the graph around a symbol or a file.

use vstd::prelude::*;

use std::collections::HashSet;

use crate::deps::targets_of;
use crate::names::simple_name;
use crate::split::trim_end_char_of;
use crate::store::{keep, Edge, EdgeKind, Node, Steps, Store};
use crate::text::{
    cat3, chars_of, has_prefix, has_str, last_char, same, string_of, strip_prefix, tail_after_last,
};

verus! {

broadcast use vstd::std_specs::hash::group_hash_axioms;

/// The most nodes in a drawing.
pub const MAX_GRAPH_JSON_NODES: usize = 200;

// ---------------------------------------------------------------- names of nodes and edges

/// The name of a relation.
pub open spec fn kind_name(kind: EdgeKind) -> Seq<char> {
    match kind {
        EdgeKind::DefinesBinding => "defines"@,
        EdgeKind::RefCall => "calls"@,
        EdgeKind::Depends => "imports"@,
        EdgeKind::ResolvesTo => "resolves-to"@,
        EdgeKind::Exports => "exports"@,
        EdgeKind::RefImports => "ref/imports"@,
        EdgeKind::IsImplementation => "is-implementation"@,
        EdgeKind::Overrides => "overrides"@,
        EdgeKind::FFICall => "ffi/call"@,
        EdgeKind::Configures => "configures"@,
        EdgeKind::ExternalDependency => "external-dependency"@,
    }
}

/// The name of a relation.
pub fn edge_kind_str(kind: EdgeKind) -> (r: &'static str)
    ensures
        r@ == kind_name(kind),
{
    match kind {
        EdgeKind::DefinesBinding => "defines",
        EdgeKind::RefCall => "calls",
        EdgeKind::Depends => "imports",
        EdgeKind::ResolvesTo => "resolves-to",
        EdgeKind::Exports => "exports",
        EdgeKind::RefImports => "ref/imports",
        EdgeKind::IsImplementation => "is-implementation",
        EdgeKind::Overrides => "overrides",
        EdgeKind::FFICall => "ffi/call",
        EdgeKind::Configures => "configures",
        EdgeKind::ExternalDependency => "external-dependency",
    }
}

/// The id of a node in a drawing: its path, for a symbol with its signature, for a file with its
/// corpus.
pub open spec fn json_id(n: Node) -> Seq<char> {
    if n.kind@ == "file"@ || n.path@.len() == 0 {
        if n.corpus@.len() == 0 {
            n.path@
        } else {
            n.corpus@ + ":"@ + n.path@
        }
    } else {
        n.path@ + ":"@ + n.signature@
    }
}

/// The id of a node in a drawing.
pub fn node_json_id(n: &Node) -> (r: String)
    ensures
        r@ == json_id(*n),
{
    if same(n.kind.as_str(), "file") || n.path.as_str().is_empty() {
        if n.corpus.as_str().is_empty() {
            n.path.clone()
        } else {
            cat3(n.corpus.as_str(), ":", n.path.as_str())
        }
    } else {
        cat3(n.path.as_str(), ":", n.signature.as_str())
    }
}

/// The short name in an index signature: what follows the last `#`, else the last part before it.
pub open spec fn scip_label(sig: Seq<char>) -> Seq<char> {
    match crate::text::last_of(sig, '#', '#') {
        Some(i) => {
            let after = crate::split::trim_end_char(sig.skip(i + 1), '.');
            if after.len() > 0 {
                after
            } else {
                crate::text::after_last(sig.take(i), '/', ' ')
            }
        },
        None => sig,
    }
}

/// A signature without the prefix of its kind.
pub open spec fn plain_label(sig: Seq<char>) -> Seq<char> {
    if crate::text::starts_with(sig, "fn:"@) {
        sig.skip("fn:"@.len() as int)
    } else if crate::text::starts_with(sig, "class:"@) {
        sig.skip("class:"@.len() as int)
    } else if crate::text::starts_with(sig, "method:"@) {
        sig.skip("method:"@.len() as int)
    } else if crate::text::starts_with(sig, "interface:"@) {
        sig.skip("interface:"@.len() as int)
    } else if crate::text::starts_with(sig, "import:"@) {
        sig.skip("import:"@.len() as int)
    } else {
        sig
    }
}

/// The label of a node in a drawing.
pub open spec fn json_label(n: Node) -> Seq<char> {
    if n.kind@ == "file"@ {
        crate::text::after_last(n.path@, '/', '/')
    } else if crate::text::starts_with(n.signature@, "scip:"@) {
        scip_label(n.signature@)
    } else {
        plain_label(n.signature@)
    }
}

fn scip_label_of(sig: &str) -> (r: String)
    ensures
        r@ == scip_label(sig@),
{
    let cs = chars_of(sig);
    let n: usize = cs.len();
    match last_char(&cs, '#', '#') {
        Some(i) => {
            let tail = string_of(&cs, i + 1, n);
            assert(cs@.subrange(i + 1, n as int) =~= sig@.skip(i + 1));
            let after = trim_end_char_of(tail.as_str(), '.');
            if !after.as_str().is_empty() {
                after
            } else {
                let head = string_of(&cs, 0, i);
                assert(cs@.subrange(0, i as int) =~= sig@.take(i as int));
                tail_after_last(head.as_str(), '/', ' ')
            }
        },
        None => sig.to_owned(),
    }
}

fn plain_label_of(sig: &str) -> (r: String)
    ensures
        r@ == plain_label(sig@),
{
    if let Some(t) = strip_prefix(sig, "fn:") {
        t.to_owned()
    } else if let Some(t) = strip_prefix(sig, "class:") {
        t.to_owned()
    } else if let Some(t) = strip_prefix(sig, "method:") {
        t.to_owned()
    } else if let Some(t) = strip_prefix(sig, "interface:") {
        t.to_owned()
    } else if let Some(t) = strip_prefix(sig, "import:") {
        t.to_owned()
    } else {
        sig.to_owned()
    }
}

/// The label of a node in a drawing: the name of a file, or the short name of a symbol.
pub fn node_json_label(n: &Node) -> (r: String)
    ensures
        r@ == json_label(*n),
{
    if same(n.kind.as_str(), "file") {
        tail_after_last(n.path.as_str(), '/', '/')
    } else if has_prefix(n.signature.as_str(), "scip:") {
        scip_label_of(n.signature.as_str())
    } else {
        plain_label_of(n.signature.as_str())
    }
}

// ---------------------------------------------------------------- the seeds

/// The hits that a walk may start from: of the wanted kind, or without index symbols.
pub open spec fn eligible(hits: Seq<Node>, kind: Seq<char>) -> Seq<Node> {
    if kind.len() > 0 {
        crate::store::kept(hits, |n: Node| n.kind@ == kind)
    } else {
        crate::store::kept(
            hits,
            |n: Node| !crate::text::starts_with(n.signature@, "scip:"@),
        )
    }
}

/// The nodes with a signature.
pub open spec fn with_signature(nodes: Seq<Node>, signature: Seq<char>) -> Seq<Node> {
    crate::store::kept(nodes, |n: Node| n.signature@ == signature)
}

/// The nodes with a bare name.
pub open spec fn with_name(nodes: Seq<Node>, name: Seq<char>) -> Seq<Node> {
    crate::store::kept(nodes, |n: Node| crate::names::bare_name(n.signature@) == name)
}

/// The nodes that a walk starts from: for a symbol those with the exact signature, else those with
/// the exact name, else all.
pub open spec fn roots(hits: Seq<Node>, query: Seq<char>, kind: Seq<char>) -> Seq<Node> {
    let all = eligible(hits, kind);
    let exact = with_signature(all, query);
    let named = with_name(all, query);
    if kind.len() == 0 && query.len() > 0 {
        if exact.len() > 0 {
            exact
        } else if named.len() > 0 {
            named
        } else {
            all
        }
    } else {
        all
    }
}

/// The nodes that a walk starts from.
pub fn roots_of(hits: &Vec<Node>, query: &str, kind: &str) -> (r: Vec<Node>)
    ensures
        r@ == roots(hits@, query@, kind@),
{
    let all = if !kind.is_empty() {
        let f = |n: &Node| -> (b: bool)
            ensures
                b == (n.kind@ == kind@),
            { same(n.kind.as_str(), kind) };
        keep(hits, f, Ghost(|n: Node| n.kind@ == kind@))
    } else {
        let f = |n: &Node| -> (b: bool)
            ensures
                b == !crate::text::starts_with(n.signature@, "scip:"@),
            { !has_prefix(n.signature.as_str(), "scip:") };
        keep(hits, f, Ghost(|n: Node| !crate::text::starts_with(n.signature@, "scip:"@)))
    };
    assert(all@ == eligible(hits@, kind@));
    if kind.is_empty() && !query.is_empty() {
        let g = |n: &Node| -> (b: bool)
            ensures
                b == (n.signature@ == query@),
            { same(n.signature.as_str(), query) };
        let exact = keep(&all, g, Ghost(|n: Node| n.signature@ == query@));
        if exact.len() > 0 {
            return exact;
        }
        let h = |n: &Node| -> (b: bool)
            ensures
                b == (crate::names::bare_name(n.signature@) == query@),
            {
                let bare = simple_name(n.signature.as_str());
                same(bare.as_str(), query)
            };
        let named = keep(
            &all,
            h,
            Ghost(|n: Node| crate::names::bare_name(n.signature@) == query@),
        );
        if named.len() > 0 {
            return named;
        }
    }
    all
}

// ---------------------------------------------------------------- links

/// A link that a walk meets at a node.
#[derive(Debug, Clone, Copy, PartialEq, Eq, Structural)]
pub struct Link {
    pub source: u64,
    pub target: u64,
    pub kind: EdgeKind,
    /// Where the walk goes on.
    pub next: u64,
    /// The walk goes on behind that node.
    pub expand: bool,
}

/// The files that the edges resolve to, through any of the imports.
pub open spec fn through(store: Store, imports: Seq<u64>) -> Seq<u64>
    decreases imports.len(),
{
    if imports.len() == 0 {
        Seq::empty()
    } else {
        through(store, imports.drop_last()) + crate::deps::targets(
            crate::store::leaving(store.edges@, imports.last()),
            EdgeKind::ResolvesTo,
        )
    }
}

/// The sources of the edges of one kind.
pub open spec fn sources(edges: Seq<Edge>, kind: EdgeKind) -> Seq<u64>
    decreases edges.len(),
{
    if edges.len() == 0 {
        Seq::empty()
    } else if edges.last().kind == kind {
        sources(edges.drop_last(), kind).push(edges.last().src)
    } else {
        sources(edges.drop_last(), kind)
    }
}

/// The files that any of the imports stand in.
pub open spec fn importers(store: Store, imports: Seq<u64>) -> Seq<u64>
    decreases imports.len(),
{
    if imports.len() == 0 {
        Seq::empty()
    } else {
        importers(store, imports.drop_last()) + sources(
            store.arriving(imports.last()),
            EdgeKind::Depends,
        )
    }
}

/// A file in the graph.
pub open spec fn is_file(store: Store, id: u64) -> bool {
    store.node(id) matches Some(n) && n.kind@ == "file"@
}

/// Links from a file to those of the nodes that are files.
pub open spec fn out_links(store: Store, id: u64, ids: Seq<u64>) -> Seq<Link>
    decreases ids.len(),
{
    if ids.len() == 0 {
        Seq::empty()
    } else {
        let rest = out_links(store, id, ids.drop_last());
        let t = ids.last();
        if is_file(store, t) {
            rest.push(
                Link { source: id, target: t, kind: EdgeKind::Depends, next: t, expand: true },
            )
        } else {
            rest
        }
    }
}

/// Links to a file from those of the nodes that are files.
pub open spec fn in_links(store: Store, id: u64, ids: Seq<u64>) -> Seq<Link>
    decreases ids.len(),
{
    if ids.len() == 0 {
        Seq::empty()
    } else {
        let rest = in_links(store, id, ids.drop_last());
        let s = ids.last();
        if is_file(store, s) {
            rest.push(
                Link { source: s, target: id, kind: EdgeKind::Depends, next: s, expand: true },
            )
        } else {
            rest
        }
    }
}

/// The steps recorded for a node.
pub open spec fn steps_of(v: Seq<Steps>, from: u64, callers: bool, first: bool) -> Seq<
    crate::store::Step,
>
    decreases v.len(),
{
    if v.len() == 0 {
        Seq::empty()
    } else if v.last().from == from && v.last().callers == callers && v.last().first == first {
        v.last().steps@
    } else {
        steps_of(v.drop_last(), from, callers, first)
    }
}

/// The links that steps make.
pub open spec fn step_links(id: u64, callers: bool, steps: Seq<crate::store::Step>) -> Seq<Link> {
    Seq::new(
        steps.len(),
        |i: int|
            if callers {
                Link {
                    source: steps[i].next,
                    target: id,
                    kind: steps[i].kind,
                    next: steps[i].next,
                    expand: steps[i].expand,
                }
            } else {
                Link {
                    source: id,
                    target: steps[i].next,
                    kind: steps[i].kind,
                    next: steps[i].next,
                    expand: steps[i].expand,
                }
            },
    )
}

/// A direction that looks at what a node needs.
pub open spec fn looks_out(direction: Seq<char>) -> bool {
    direction == "deps"@ || direction == "both"@
}

/// A direction that looks at what needs a node.
pub open spec fn looks_in(direction: Seq<char>) -> bool {
    direction == "callers"@ || direction == "both"@
}

/// The links to what a node needs. Between files, imports are looked through.
pub open spec fn outward(store: Store, q: Request, id: u64, hop: nat) -> Seq<Link> {
    if !looks_out(q.direction) {
        Seq::empty()
    } else if q.kind == "file"@ {
        out_links(
            store,
            id,
            through(
                store,
                crate::deps::targets(crate::store::leaving(store.edges@, id), EdgeKind::Depends),
            ),
        )
    } else {
        step_links(id, false, steps_of(store.steps@, id, false, hop == 0))
    }
}

/// The links from what needs a node.
pub open spec fn inward(store: Store, q: Request, id: u64, hop: nat) -> Seq<Link> {
    if !looks_in(q.direction) {
        Seq::empty()
    } else if q.kind == "file"@ {
        in_links(
            store,
            id,
            importers(store, sources(store.arriving(id), EdgeKind::ResolvesTo)),
        )
    } else {
        step_links(id, true, steps_of(store.steps@, id, true, hop == 0))
    }
}

/// The links that a walk meets at a node.
pub open spec fn links(store: Store, q: Request, id: u64, hop: nat) -> Seq<Link> {
    outward(store, q, id, hop) + inward(store, q, id, hop)
}

// ---------------------------------------------------------------- the walk

/// What a walk is asked for.
pub struct Request {
    pub direction: Seq<char>,
    pub depth: nat,
    pub kind: Seq<char>,
    /// The token budget; none where it is zero.
    pub budget: nat,
}

/// A node in a drawing.
pub struct NodeView {
    pub id: Seq<char>,
    pub label: Seq<char>,
    pub kind: Seq<char>,
    pub path: Seq<char>,
    pub package: Seq<char>,
    pub hop: nat,
    pub line: Option<u32>,
}

/// An edge in a drawing.
pub struct EdgeView {
    pub source: Seq<char>,
    pub target: Seq<char>,
    pub kind: Seq<char>,
}

/// A walk in progress. The queue holds every node that was reached, in order, with its distance and
/// whether the walk goes on behind it.
pub struct WalkView {
    pub queue: Seq<(u64, nat, bool)>,
    pub nodes: Seq<NodeView>,
    pub edges: Seq<EdgeView>,
    pub seen: Set<(u64, u64, EdgeKind)>,
    pub used: nat,
    /// A node was left out for the budget.
    pub cut: bool,
}

impl WalkView {
    /// The node was reached.
    pub open spec fn reached(self, id: u64) -> bool {
        exists|i: int| 0 <= i < self.queue.len() && (#[trigger] self.queue[i]).0 == id
    }

    /// A node with that id is drawn.
    pub open spec fn drawn(self, id: Seq<char>) -> bool {
        exists|i: int| 0 <= i < self.nodes.len() && (#[trigger] self.nodes[i]).id == id
    }
}

pub open spec fn node_view(n: Node, hop: nat) -> NodeView {
    NodeView {
        id: json_id(n),
        label: json_label(n),
        kind: n.kind@,
        path: n.path@,
        package: n.package@,
        hop,
        line: n.line,
    }
}

/// A node that a drawing leaves out: of another kind than wanted, a local index symbol, an import
/// between symbols, or a stub without a file.
pub open spec fn is_skipped(q: Request, n: Node, hop: nat) -> bool {
    (q.kind.len() > 0 && n.kind@ != q.kind) || (crate::text::starts_with(n.signature@, "scip:"@)
        && crate::text::contains(n.signature@, ":local "@)) || (n.kind@ == "import"@ && q.kind
        != "file"@) || (n.path@.len() == 0 && hop > 0)
}

/// A node that no longer fits the budget; the first always fits.
pub open spec fn is_over(q: Request, w: WalkView, n: Node) -> bool {
    q.budget > 0 && w.nodes.len() > 0 && w.used + n.token_cost > q.budget
}

/// The walk with a node reached.
pub open spec fn reach(w: WalkView, id: u64, hop: nat, expand: bool) -> WalkView {
    if w.reached(id) {
        w
    } else {
        WalkView { queue: w.queue.push((id, hop, expand)), ..w }
    }
}

/// The walk with a link taken: its edge is drawn once, if both ends are known.
pub open spec fn take_link(store: Store, w: WalkView, l: Link, hop: nat) -> WalkView {
    let key = (l.source, l.target, l.kind);
    let drawn = if w.seen.contains(key) {
        w
    } else {
        WalkView {
            seen: w.seen.insert(key),
            edges: match (store.node(l.source), store.node(l.target)) {
                (Some(a), Some(b)) => w.edges.push(
                    EdgeView { source: json_id(a), target: json_id(b), kind: kind_name(l.kind) },
                ),
                _ => w.edges,
            },
            ..w
        }
    };
    reach(drawn, l.next, hop, l.expand)
}

/// The walk with links taken in order.
pub open spec fn take_links(store: Store, w: WalkView, ls: Seq<Link>, hop: nat) -> WalkView
    decreases ls.len(),
{
    if ls.len() == 0 {
        w
    } else {
        take_link(store, take_links(store, w, ls.drop_last(), hop), ls.last(), hop)
    }
}

/// The walk with one reached node drawn and, where it goes on, its links taken. A node that is drawn
/// already, or for which the drawing has no place left, is left out.
pub open spec fn visit(store: Store, q: Request, w: WalkView, id: u64, hop: nat, expand: bool) -> WalkView {
    match store.node(id) {
        Some(n) => if is_skipped(q, n, hop) {
            w
        } else if is_over(q, w, n) {
            WalkView { cut: true, ..w }
        } else if w.drawn(json_id(n)) || w.nodes.len() >= MAX_GRAPH_JSON_NODES {
            w
        } else {
            let d = WalkView {
                nodes: w.nodes.push(node_view(n, hop)),
                used: w.used + n.token_cost as nat,
                ..w
            };
            if d.nodes.len() >= MAX_GRAPH_JSON_NODES || hop >= q.depth || !expand {
                d
            } else {
                take_links(store, d, links(store, q, id, hop), hop + 1)
            }
        },
        None => w,
    }
}

/// The walk with the starting nodes reached.
pub open spec fn start(roots: Seq<Node>) -> WalkView
    decreases roots.len(),
{
    if roots.len() == 0 {
        WalkView {
            queue: Seq::empty(),
            nodes: Seq::empty(),
            edges: Seq::empty(),
            seen: Set::empty(),
            used: 0,
            cut: false,
        }
    } else {
        reach(start(roots.drop_last()), roots.last().id, 0, true)
    }
}

/// The walk after the first `k` reached nodes were visited.
pub open spec fn after(store: Store, q: Request, roots: Seq<Node>, k: nat) -> WalkView
    decreases k,
{
    if k == 0 {
        start(roots)
    } else {
        let w = after(store, q, roots, (k - 1) as nat);
        if k - 1 < w.queue.len() {
            visit(
                store,
                q,
                w,
                w.queue[k - 1].0,
                w.queue[k - 1].1,
                w.queue[k - 1].2,
            )
        } else {
            w
        }
    }
}

/// Every reached node was visited.
pub open spec fn is_done(store: Store, q: Request, roots: Seq<Node>, k: nat) -> bool {
    after(store, q, roots, k).queue.len() <= k
}

/// The walk when every reached node was visited.
pub open spec fn walked(store: Store, q: Request, roots: Seq<Node>) -> WalkView {
    after(store, q, roots, choose|k: nat| is_done(store, q, roots, k))
}

proof fn lemma_stays_done(store: Store, q: Request, roots: Seq<Node>, k: nat, m: nat)
    requires
        is_done(store, q, roots, k),
        k <= m,
    ensures
        after(store, q, roots, m) == after(store, q, roots, k),
    decreases m,
{
    if k < m {
        lemma_stays_done(store, q, roots, k, (m - 1) as nat);
    }
}

proof fn lemma_walked(store: Store, q: Request, roots: Seq<Node>, k: nat)
    requires
        is_done(store, q, roots, k),
    ensures
        walked(store, q, roots) == after(store, q, roots, k),
{
    let m = choose|m: nat| is_done(store, q, roots, m);
    assert(is_done(store, q, roots, m));
    if k <= m {
        lemma_stays_done(store, q, roots, k, m);
    } else {
        lemma_stays_done(store, q, roots, m, k);
    }
}

/// The edges whose two ends are drawn.
pub open spec fn anchored_edges(edges: Seq<EdgeView>, nodes: Seq<NodeView>) -> Seq<EdgeView>
    decreases edges.len(),
{
    if edges.len() == 0 {
        Seq::empty()
    } else {
        let rest = anchored_edges(edges.drop_last(), nodes);
        if has_id(nodes, edges.last().source) && has_id(nodes, edges.last().target) {
            rest.push(edges.last())
        } else {
            rest
        }
    }
}

/// A node with that id is among the nodes.
pub open spec fn has_id(nodes: Seq<NodeView>, id: Seq<char>) -> bool {
    exists|i: int| 0 <= i < nodes.len() && (#[trigger] nodes[i]).id == id
}

// ---------------------------------------------------------------- walking

/// A node in a drawing.
#[derive(Debug)]
pub struct GraphNode {
    pub id: String,
    pub label: String,
    pub kind: String,
    pub path: String,
    pub package: String,
    /// The distance from the starting nodes.
    pub hop: u8,
    pub line: Option<u32>,
}

impl View for GraphNode {
    type V = NodeView;

    open spec fn view(&self) -> NodeView {
        NodeView {
            id: self.id@,
            label: self.label@,
            kind: self.kind@,
            path: self.path@,
            package: self.package@,
            hop: self.hop as nat,
            line: self.line,
        }
    }
}

impl GraphNode {
    /// A copy.
    pub fn copy(&self) -> (r: GraphNode)
        ensures
            r@ == self@,
    {
        GraphNode {
            id: self.id.clone(),
            label: self.label.clone(),
            kind: self.kind.clone(),
            path: self.path.clone(),
            package: self.package.clone(),
            hop: self.hop,
            line: self.line,
        }
    }
}

/// An edge in a drawing.
#[derive(Debug)]
pub struct GraphEdge {
    pub source: String,
    pub target: String,
    pub kind: &'static str,
}

impl View for GraphEdge {
    type V = EdgeView;

    open spec fn view(&self) -> EdgeView {
        EdgeView { source: self.source@, target: self.target@, kind: self.kind@ }
    }
}

impl GraphEdge {
    /// A copy.
    pub fn copy(&self) -> (r: GraphEdge)
        ensures
            r@ == self@,
    {
        GraphEdge { source: self.source.clone(), target: self.target.clone(), kind: self.kind }
    }
}

pub open spec fn node_views(v: Seq<GraphNode>) -> Seq<NodeView> {
    Seq::new(v.len(), |i: int| v[i]@)
}

pub open spec fn edge_views(v: Seq<GraphEdge>) -> Seq<EdgeView> {
    Seq::new(v.len(), |i: int| v[i]@)
}

/// What a walk found.
#[derive(Debug)]
pub struct Drawing {
    pub nodes: Vec<GraphNode>,
    pub edges: Vec<GraphEdge>,
    /// A node was left out for the budget.
    pub cut: bool,
}

fn sources_of(edges: &Vec<Edge>, kind: EdgeKind) -> (r: Vec<u64>)
    ensures
        r@ == sources(edges@, kind),
{
    let mut r: Vec<u64> = Vec::new();
    let mut i: usize = 0;
    while i < edges.len()
        invariant
            i <= edges@.len(),
            r@ == sources(edges@.take(i as int), kind),
        decreases edges@.len() - i,
    {
        assert(edges@.take(i + 1).drop_last() =~= edges@.take(i as int));
        if edges[i].kind == kind {
            r.push(edges[i].src);
        }
        i += 1;
    }
    assert(edges@.take(i as int) =~= edges@);
    r
}

fn through_of(store: &Store, imports: &Vec<u64>) -> (r: Vec<u64>)
    ensures
        r@ == through(*store, imports@),
{
    let mut r: Vec<u64> = Vec::new();
    let mut i: usize = 0;
    while i < imports.len()
        invariant
            i <= imports@.len(),
            r@ == through(*store, imports@.take(i as int)),
        decreases imports@.len() - i,
    {
        assert(imports@.take(i + 1).drop_last() =~= imports@.take(i as int));
        let edges = store.edges_from(imports[i]);
        let mut more = targets_of(&edges, EdgeKind::ResolvesTo);
        r.append(&mut more);
        i += 1;
    }
    assert(imports@.take(i as int) =~= imports@);
    r
}

fn importers_of(store: &Store, imports: &Vec<u64>) -> (r: Vec<u64>)
    ensures
        r@ == importers(*store, imports@),
{
    let mut r: Vec<u64> = Vec::new();
    let mut i: usize = 0;
    while i < imports.len()
        invariant
            i <= imports@.len(),
            r@ == importers(*store, imports@.take(i as int)),
        decreases imports@.len() - i,
    {
        assert(imports@.take(i + 1).drop_last() =~= imports@.take(i as int));
        let edges = store.edges_to(imports[i]);
        let mut more = sources_of(&edges, EdgeKind::Depends);
        r.append(&mut more);
        i += 1;
    }
    assert(imports@.take(i as int) =~= imports@);
    r
}

fn file_at(store: &Store, id: u64) -> (r: bool)
    ensures
        r == is_file(*store, id),
{
    match store.get_node(id) {
        Some(n) => same(n.kind.as_str(), "file"),
        None => false,
    }
}

fn push_out_links(store: &Store, id: u64, ids: &Vec<u64>, out: &mut Vec<Link>)
    ensures
        final(out)@ == old(out)@ + out_links(*store, id, ids@),
{
    let ghost before = out@;
    let mut i: usize = 0;
    assert(before + out_links(*store, id, ids@.take(0)) =~= before);
    while i < ids.len()
        invariant
            i <= ids@.len(),
            out@ == before + out_links(*store, id, ids@.take(i as int)),
        decreases ids@.len() - i,
    {
        assert(ids@.take(i + 1).drop_last() =~= ids@.take(i as int));
        if file_at(store, ids[i]) {
            let l = Link {
                source: id,
                target: ids[i],
                kind: EdgeKind::Depends,
                next: ids[i],
                expand: true,
            };
            out.push(l);
            assert((before + out_links(*store, id, ids@.take(i as int))).push(l) =~= before
                + out_links(*store, id, ids@.take(i as int)).push(l));
        }
        i += 1;
    }
    assert(ids@.take(i as int) =~= ids@);
}

fn push_in_links(store: &Store, id: u64, ids: &Vec<u64>, out: &mut Vec<Link>)
    ensures
        final(out)@ == old(out)@ + in_links(*store, id, ids@),
{
    let ghost before = out@;
    let mut i: usize = 0;
    assert(before + in_links(*store, id, ids@.take(0)) =~= before);
    while i < ids.len()
        invariant
            i <= ids@.len(),
            out@ == before + in_links(*store, id, ids@.take(i as int)),
        decreases ids@.len() - i,
    {
        assert(ids@.take(i + 1).drop_last() =~= ids@.take(i as int));
        if file_at(store, ids[i]) {
            let l = Link {
                source: ids[i],
                target: id,
                kind: EdgeKind::Depends,
                next: ids[i],
                expand: true,
            };
            out.push(l);
            assert((before + in_links(*store, id, ids@.take(i as int))).push(l) =~= before
                + in_links(*store, id, ids@.take(i as int)).push(l));
        }
        i += 1;
    }
    assert(ids@.take(i as int) =~= ids@);
}

fn push_step_links(store: &Store, id: u64, callers: bool, first: bool, out: &mut Vec<Link>)
    ensures
        final(out)@ == old(out)@ + step_links(
            id,
            callers,
            steps_of(store.steps@, id, callers, first),
        ),
{
    let ghost before = out@;
    let mut i: usize = store.steps.len();
    assert(store.steps@.take(i as int) =~= store.steps@);
    while i > 0
        invariant
            i <= store.steps@.len(),
            out@ == before,
            before == old(out)@,
            steps_of(store.steps@, id, callers, first) == steps_of(
                store.steps@.take(i as int),
                id,
                callers,
                first,
            ),
        decreases i,
    {
        let s = &store.steps[i - 1];
        if s.from == id && s.callers == callers && s.first == first {
            let ghost all = step_links(id, callers, s.steps@);
            let mut k: usize = 0;
            assert(before + all.take(0) =~= before);
            while k < s.steps.len()
                invariant
                    k <= s.steps@.len(),
                    all == step_links(id, callers, s.steps@),
                    out@ == before + all.take(k as int),
                decreases s.steps@.len() - k,
            {
                let t = s.steps[k];
                let l = if callers {
                    Link {
                        source: t.next,
                        target: id,
                        kind: t.kind,
                        next: t.next,
                        expand: t.expand,
                    }
                } else {
                    Link {
                        source: id,
                        target: t.next,
                        kind: t.kind,
                        next: t.next,
                        expand: t.expand,
                    }
                };
                out.push(l);
                assert((before + all.take(k as int)).push(all[k as int]) =~= before + all.take(
                    k + 1,
                ));
                k += 1;
            }
            assert(all.take(k as int) =~= all);
            return;
        }
        i -= 1;
        assert(store.steps@.take(i + 1).drop_last() =~= store.steps@.take(i as int));
    }
    assert(step_links(id, callers, Seq::empty()) =~= Seq::<Link>::empty());
    assert(out@ =~= before + step_links(id, callers, Seq::empty()));
}

/// What a walk is asked for.
#[derive(Debug, Clone, Copy)]
pub struct WalkRequest<'a> {
    pub direction: &'a str,
    pub depth: u8,
    pub kind: &'a str,
    pub budget: usize,
}

impl<'a> View for WalkRequest<'a> {
    type V = Request;

    open spec fn view(&self) -> Request {
        Request {
            direction: self.direction@,
            depth: self.depth as nat,
            kind: self.kind@,
            budget: self.budget as nat,
        }
    }
}

fn links_of(store: &Store, q: &WalkRequest, id: u64, hop: u8) -> (r: Vec<Link>)
    ensures
        r@ == links(*store, q@, id, hop as nat),
{
    let mut r: Vec<Link> = Vec::new();
    let files = same(q.kind, "file");
    if same(q.direction, "deps") || same(q.direction, "both") {
        if files {
            let edges = store.edges_from(id);
            let imports = targets_of(&edges, EdgeKind::Depends);
            let ids = through_of(store, &imports);
            push_out_links(store, id, &ids, &mut r);
        } else {
            push_step_links(store, id, false, hop == 0, &mut r);
        }
    }
    assert(r@ =~= outward(*store, q@, id, hop as nat));
    if same(q.direction, "callers") || same(q.direction, "both") {
        if files {
            let edges = store.edges_to(id);
            let imports = sources_of(&edges, EdgeKind::ResolvesTo);
            let ids = importers_of(store, &imports);
            push_in_links(store, id, &ids, &mut r);
        } else {
            push_step_links(store, id, true, hop == 0, &mut r);
        }
    } else {
        assert(r@ =~= links(*store, q@, id, hop as nat));
    }
    r
}

/// A walk in progress.
struct Walker {
    queue: Vec<(u64, u8, bool)>,
    visited: HashSet<u64>,
    nodes: Vec<GraphNode>,
    edges: Vec<GraphEdge>,
    seen: Vec<(u64, u64, EdgeKind)>,
    used: u128,
    cut: bool,
}

spec fn queue_view(q: Seq<(u64, u8, bool)>) -> Seq<(u64, nat, bool)> {
    Seq::new(q.len(), |i: int| (q[i].0, q[i].1 as nat, q[i].2))
}

spec fn queue_ids(q: Seq<(u64, u8, bool)>) -> Seq<u64> {
    Seq::new(q.len(), |i: int| q[i].0)
}

impl Walker {
    spec fn is(self, w: WalkView) -> bool {
        &&& queue_view(self.queue@) == w.queue
        &&& queue_ids(self.queue@).to_set() == self.visited@
        &&& queue_ids(self.queue@).no_duplicates()
        &&& node_views(self.nodes@) == w.nodes
        &&& edge_views(self.edges@) == w.edges
        &&& self.seen@.to_set() == w.seen
        &&& self.used == w.used
        &&& self.cut == w.cut
        &&& self.used <= self.nodes@.len() * usize::MAX
    }

    fn reach(&mut self, id: u64, hop: u8, expand: bool, Ghost(w): Ghost<WalkView>)
        requires
            old(self).is(w),
        ensures
            final(self).is(reach(w, id, hop as nat, expand)),
    {
        let ghost q = self.queue@;
        let ghost ids = queue_ids(q);
        proof {
            if w.reached(id) {
                let i = choose|i: int| 0 <= i < w.queue.len() && (#[trigger] w.queue[i]).0 == id;
                assert(ids[i] == id);
                assert(ids.to_set().contains(id));
            }
            if ids.contains(id) {
                let i = choose|i: int| 0 <= i < ids.len() && ids[i] == id;
                assert(w.queue[i].0 == id);
            }
        }
        if self.visited.insert(id) {
            self.queue.push((id, hop, expand));
            proof {
                assert(!ids.contains(id)) by {
                    if ids.contains(id) {
                        assert(ids.to_set().contains(id));
                    }
                }
                crate::order::lemma_to_set_push(ids, id);
                assert(queue_ids(self.queue@) =~= ids.push(id));
                assert(queue_view(self.queue@) =~= queue_view(q).push((id, hop as nat, expand)));
                assert(ids.push(id).no_duplicates()) by {
                    let p = ids.push(id);
                    assert forall|x: int, y: int|
                        0 <= x < p.len() && 0 <= y < p.len() && x != y implies p[x] != p[y] by {
                        if x < ids.len() {
                            assert(ids.contains(ids[x]));
                        }
                        if y < ids.len() {
                            assert(ids.contains(ids[y]));
                        }
                    }
                }
            }
        } else {
            proof {
                assert(self.visited@ =~= old(self).visited@);
                assert(ids.to_set().contains(id));
                let i = choose|i: int| 0 <= i < ids.len() && ids[i] == id;
                assert(w.queue[i].0 == id);
            }
        }
    }

    fn has_seen(&self, key: (u64, u64, EdgeKind)) -> (r: bool)
        ensures
            r == self.seen@.to_set().contains(key),
    {
        let mut i: usize = 0;
        while i < self.seen.len()
            invariant
                i <= self.seen@.len(),
                forall|j: int| 0 <= j < i ==> self.seen@[j] != key,
            decreases self.seen@.len() - i,
        {
            let k = self.seen[i];
            if k.0 == key.0 && k.1 == key.1 && k.2 == key.2 {
                assert(self.seen@[i as int] == key);
                return true;
            }
            i += 1;
        }
        false
    }

    fn take_link(&mut self, store: &Store, l: Link, hop: u8, Ghost(w): Ghost<WalkView>)
        requires
            old(self).is(w),
        ensures
            final(self).is(take_link(*store, w, l, hop as nat)),
    {
        let key = (l.source, l.target, l.kind);
        let ghost mut d = w;
        if !self.has_seen(key) {
            let ghost before = self.seen@;
            self.seen.push(key);
            proof {
                crate::order::lemma_to_set_push(before, key);
                d = WalkView { seen: w.seen.insert(key), ..w };
            }
            if let (Some(a), Some(b)) = (store.get_node(l.source), store.get_node(l.target)) {
                let e = GraphEdge {
                    source: node_json_id(a),
                    target: node_json_id(b),
                    kind: edge_kind_str(l.kind),
                };
                let ghost es = self.edges@;
                let ghost ev = e@;
                self.edges.push(e);
                proof {
                    assert(edge_views(self.edges@) =~= edge_views(es).push(ev));
                    d = WalkView { edges: w.edges.push(ev), ..d };
                }
            }
        }
        assert(self.is(d));
        self.reach(l.next, hop, l.expand, Ghost(d));
    }

    fn take_links(&mut self, store: &Store, ls: &Vec<Link>, hop: u8, Ghost(w): Ghost<WalkView>)
        requires
            old(self).is(w),
        ensures
            final(self).is(take_links(*store, w, ls@, hop as nat)),
    {
        let mut i: usize = 0;
        while i < ls.len()
            invariant
                i <= ls@.len(),
                self.is(take_links(*store, w, ls@.take(i as int), hop as nat)),
            decreases ls@.len() - i,
        {
            assert(ls@.take(i + 1).drop_last() =~= ls@.take(i as int));
            let ghost now = take_links(*store, w, ls@.take(i as int), hop as nat);
            self.take_link(store, ls[i], hop, Ghost(now));
            i += 1;
        }
        assert(ls@.take(i as int) =~= ls@);
    }

    fn has_drawn(&self, id: &str, Ghost(w): Ghost<WalkView>) -> (r: bool)
        requires
            self.is(w),
        ensures
            r == w.drawn(id@),
    {
        let mut i: usize = 0;
        while i < self.nodes.len()
            invariant
                self.is(w),
                i <= self.nodes@.len(),
                forall|j: int| 0 <= j < i ==> (#[trigger] w.nodes[j]).id != id@,
            decreases self.nodes@.len() - i,
        {
            assert(w.nodes[i as int] == self.nodes@[i as int]@);
            if same(self.nodes[i].id.as_str(), id) {
                return true;
            }
            i += 1;
        }
        false
    }

    fn visit(&mut self, store: &Store, q: &WalkRequest, id: u64, hop: u8, expand: bool, Ghost(w): Ghost<
        WalkView,
    >)
        requires
            old(self).is(w),
        ensures
            final(self).is(visit(*store, q@, w, id, hop as nat, expand)),
    {
        let n: &Node = match store.get_node(id) {
            Some(n) => n,
            None => return,
        };
        if skips(q, n, hop) {
            return;
        }
        assert(node_views(self.nodes@).len() == self.nodes@.len());
        let count: usize = self.nodes.len();
        assert(self.nodes@.len() * usize::MAX <= 0xffff_ffff_ffff_ffff * 0xffff_ffff_ffff_ffff)
            by (nonlinear_arith)
            requires
                self.nodes@.len() == count,
                count <= 0xffff_ffff_ffff_ffff,
                usize::MAX <= 0xffff_ffff_ffff_ffff,
        ;
        if q.budget > 0 && count > 0 && self.used + n.token_cost as u128
            > q.budget as u128 {
            self.cut = true;
            return;
        }
        let jid = node_json_id(n);
        if self.has_drawn(jid.as_str(), Ghost(w)) || count >= MAX_GRAPH_JSON_NODES {
            return;
        }
        let g = GraphNode {
            id: jid,
            label: node_json_label(n),
            kind: n.kind.clone(),
            path: n.path.clone(),
            package: n.package.clone(),
            hop,
            line: n.line,
        };
        let ghost ns = self.nodes@;
        let ghost gv = g@;
        self.nodes.push(g);
        self.used = self.used + n.token_cost as u128;
        let ghost d = (WalkView {
            nodes: w.nodes.push(gv),
            used: w.used + n.token_cost as nat,
            ..w
        });
        proof {
            assert(node_views(self.nodes@) =~= node_views(ns).push(gv));
            assert((ns.len() + 1) * usize::MAX == ns.len() * usize::MAX + usize::MAX)
                by (nonlinear_arith);
        }
        assert(self.is(d));
        if self.nodes.len() >= MAX_GRAPH_JSON_NODES || hop >= q.depth || !expand {
            return;
        }
        let ls = links_of(store, q, id, hop);
        self.take_links(store, &ls, hop + 1, Ghost(d));
    }
}

fn skips(q: &WalkRequest, n: &Node, hop: u8) -> (r: bool)
    ensures
        r == is_skipped(q@, *n, hop as nat),
{
    (!q.kind.is_empty() && !same(n.kind.as_str(), q.kind)) || (has_prefix(
        n.signature.as_str(),
        "scip:",
    ) && has_str(n.signature.as_str(), ":local ")) || (same(n.kind.as_str(), "import") && !same(
        q.kind,
        "file",
    )) || (n.path.as_str().is_empty() && hop > 0)
}

proof fn lemma_ids_bounded(ids: Seq<u64>)
    requires
        ids.no_duplicates(),
    ensures
        ids.len() <= 0x1_0000_0000_0000_0000,
{
    let a = Seq::new(ids.len(), |i: int| ids[i] as int);
    let b = Seq::new(0x1_0000_0000_0000_0000nat, |i: int| i);
    assert(a.no_duplicates());
    assert forall|i: int| 0 <= i < a.len() implies b.contains(#[trigger] a[i]) by {
        assert(b[a[i]] == a[i]);
    }
    crate::order::lemma_distinct_within(a, b);
}

fn is_anchored(nodes: &Vec<GraphNode>, id: &str) -> (r: bool)
    ensures
        r == has_id(node_views(nodes@), id@),
{
    let ghost nv = node_views(nodes@);
    let mut i: usize = 0;
    while i < nodes.len()
        invariant
            nv == node_views(nodes@),
            i <= nodes@.len(),
            forall|j: int| 0 <= j < i ==> (#[trigger] nv[j]).id != id@,
        decreases nodes@.len() - i,
    {
        assert(nv[i as int] == nodes@[i as int]@);
        if same(nodes[i].id.as_str(), id) {
            return true;
        }
        i += 1;
    }
    false
}

fn keep_anchored(edges: &Vec<GraphEdge>, nodes: &Vec<GraphNode>) -> (r: Vec<GraphEdge>)
    ensures
        edge_views(r@) == anchored_edges(edge_views(edges@), node_views(nodes@)),
{
    let ghost ev = edge_views(edges@);
    let ghost nv = node_views(nodes@);
    let mut r: Vec<GraphEdge> = Vec::new();
    let mut i: usize = 0;
    assert(edge_views(r@) =~= anchored_edges(ev.take(0), nv));
    while i < edges.len()
        invariant
            ev == edge_views(edges@),
            nv == node_views(nodes@),
            i <= edges@.len(),
            edge_views(r@) == anchored_edges(ev.take(i as int), nv),
        decreases edges@.len() - i,
    {
        assert(ev.take(i + 1).drop_last() =~= ev.take(i as int));
        assert(ev.take(i + 1).last() == edges@[i as int]@);
        if is_anchored(nodes, edges[i].source.as_str()) && is_anchored(
            nodes,
            edges[i].target.as_str(),
        ) {
            let ghost was = r@;
            let e = edges[i].copy();
            let ghost x = e@;
            r.push(e);
            assert(edge_views(r@) =~= edge_views(was).push(x));
        }
        i += 1;
    }
    assert(ev.take(i as int) =~= ev);
    r
}

/// Walks from the starting nodes in order of distance. A node is drawn once; an edge only where both
/// its ends are drawn.
pub fn walk(store: &Store, q: &WalkRequest, roots: &Vec<Node>) -> (r: Drawing)
    ensures
        node_views(r.nodes@) == walked(*store, q@, roots@).nodes,
        edge_views(r.edges@) == anchored_edges(
            walked(*store, q@, roots@).edges,
            walked(*store, q@, roots@).nodes,
        ),
        r.cut == walked(*store, q@, roots@).cut,
{
    let mut w = Walker {
        queue: Vec::new(),
        visited: HashSet::new(),
        nodes: Vec::new(),
        edges: Vec::new(),
        seen: Vec::new(),
        used: 0,
        cut: false,
    };
    proof {
        let s = start(roots@.take(0));
        assert(queue_view(w.queue@) =~= s.queue);
        assert(queue_ids(w.queue@).to_set() =~= w.visited@);
        assert(node_views(w.nodes@) =~= s.nodes);
        assert(edge_views(w.edges@) =~= s.edges);
        assert(w.seen@.to_set() =~= s.seen);
        assert(w.nodes@.len() * usize::MAX == 0) by (nonlinear_arith)
            requires
                w.nodes@.len() == 0,
        ;
    }
    let mut i: usize = 0;
    while i < roots.len()
        invariant
            i <= roots@.len(),
            w.is(start(roots@.take(i as int))),
        decreases roots@.len() - i,
    {
        assert(roots@.take(i + 1).drop_last() =~= roots@.take(i as int));
        let ghost now = start(roots@.take(i as int));
        w.reach(roots[i].id, 0, true, Ghost(now));
        i += 1;
    }
    assert(roots@.take(i as int) =~= roots@);
    let mut k: usize = 0;
    while k < w.queue.len()
        invariant
            w.is(after(*store, q@, roots@, k as nat)),
            k <= w.queue@.len(),
        decreases 0x1_0000_0000_0000_0000 - k,
    {
        let (id, hop, expand) = w.queue[k];
        let ghost now = after(*store, q@, roots@, k as nat);
        proof {
            lemma_ids_bounded(queue_ids(w.queue@));
            assert(now.queue[k as int] == (id, hop as nat, expand));
            lemma_visit_grows(*store, q@, now, id, hop as nat, expand);
        }
        w.visit(store, q, id, hop, expand, Ghost(now));
        k += 1;
        assert(after(*store, q@, roots@, k as nat) == visit(
            *store,
            q@,
            now,
            id,
            hop as nat,
            expand,
        ));
        assert(queue_view(w.queue@).len() == w.queue@.len());
    }
    proof {
        assert(queue_view(w.queue@).len() == w.queue@.len());
        assert(is_done(*store, q@, roots@, k as nat));
        lemma_walked(*store, q@, roots@, k as nat);
    }
    let edges = keep_anchored(&w.edges, &w.nodes);
    Drawing { nodes: w.nodes, edges, cut: w.cut }
}

proof fn lemma_take_links_grows(store: Store, w: WalkView, ls: Seq<Link>, hop: nat)
    ensures
        take_links(store, w, ls, hop).queue.len() >= w.queue.len(),
    decreases ls.len(),
{
    if ls.len() > 0 {
        lemma_take_links_grows(store, w, ls.drop_last(), hop);
    }
}

proof fn lemma_visit_grows(
    store: Store,
    q: Request,
    w: WalkView,
    id: u64,
    hop: nat,
    expand: bool,
)
    ensures
        visit(store, q, w, id, hop, expand).queue.len() >= w.queue.len(),
{
    if let Some(n) = store.node(id) {
        let d = WalkView {
            nodes: w.nodes.push(node_view(n, hop)),
            used: w.used + n.token_cost as nat,
            ..w
        };
        lemma_take_links_grows(store, d, links(store, q, id, hop), hop + 1);
    }
}

// ---------------------------------------------------------------- laws

/// Drawn nodes have different ids.
pub open spec fn distinct_ids(nodes: Seq<NodeView>) -> bool {
    forall|i: int, j: int| 0 <= i < j < nodes.len() ==> (#[trigger] nodes[i]).id != (#[trigger] nodes[j]).id
}

proof fn lemma_take_links_keep_nodes(store: Store, w: WalkView, ls: Seq<Link>, hop: nat)
    ensures
        take_links(store, w, ls, hop).nodes == w.nodes,
        take_links(store, w, ls, hop).used == w.used,
    decreases ls.len(),
{
    if ls.len() > 0 {
        lemma_take_links_keep_nodes(store, w, ls.drop_last(), hop);
    }
}

proof fn lemma_start(roots: Seq<Node>)
    ensures
        start(roots).nodes.len() == 0,
        start(roots).used == 0,
    decreases roots.len(),
{
    if roots.len() > 0 {
        lemma_start(roots.drop_last());
    }
}

proof fn lemma_after_distinct(store: Store, q: Request, roots: Seq<Node>, k: nat)
    ensures
        distinct_ids(after(store, q, roots, k).nodes),
        q.budget > 0 && after(store, q, roots, k).nodes.len() > 1 ==> after(
            store,
            q,
            roots,
            k,
        ).used <= q.budget,
    decreases k,
{
    if k == 0 {
        lemma_start(roots);
    } else {
        let w = after(store, q, roots, (k - 1) as nat);
        lemma_after_distinct(store, q, roots, (k - 1) as nat);
        if k - 1 < w.queue.len() {
            let (id, hop, _) = w.queue[k - 1];
            if let Some(n) = store.node(id) {
                let d = WalkView {
                    nodes: w.nodes.push(node_view(n, hop)),
                    used: w.used + n.token_cost as nat,
                    ..w
                };
                lemma_take_links_keep_nodes(store, d, links(store, q, id, hop), hop + 1);
                if !w.drawn(json_id(n)) {
                    assert forall|i: int, j: int| 0 <= i < j < d.nodes.len() implies (
                    #[trigger] d.nodes[i]).id != (#[trigger] d.nodes[j]).id by {
                        if j == w.nodes.len() {
                            assert(d.nodes[i] == w.nodes[i]);
                        }
                    }
                }
            }
        }
    }
}

/// No two drawn nodes share an id, and more than one node is drawn only within the budget.
pub proof fn law_drawn_ids_are_distinct(store: Store, q: Request, roots: Seq<Node>)
    ensures
        distinct_ids(walked(store, q, roots).nodes),
        q.budget > 0 && walked(store, q, roots).nodes.len() > 1 ==> walked(store, q, roots).used
            <= q.budget,
{
    lemma_after_distinct(store, q, roots, choose|k: nat| is_done(store, q, roots, k));
}

/// No node is reached twice.
spec fn reaches_once(w: WalkView) -> bool {
    forall|i: int, j: int|
        0 <= i < j < w.queue.len() ==> (#[trigger] w.queue[i]).0 != (#[trigger] w.queue[j]).0
}

proof fn lemma_reach_once(w: WalkView, id: u64, hop: nat, expand: bool)
    requires
        reaches_once(w),
    ensures
        reaches_once(reach(w, id, hop, expand)),
{
    let r = reach(w, id, hop, expand);
    if !w.reached(id) {
        assert forall|i: int, j: int| 0 <= i < j < r.queue.len() implies (#[trigger] r.queue[i]).0 != (
        #[trigger] r.queue[j]).0 by {
            assert(r.queue[i] == w.queue[i]);
            if j < w.queue.len() {
                assert(r.queue[j] == w.queue[j]);
            }
        }
    }
}

proof fn lemma_take_links_once(store: Store, w: WalkView, ls: Seq<Link>, hop: nat)
    requires
        reaches_once(w),
    ensures
        reaches_once(take_links(store, w, ls, hop)),
    decreases ls.len(),
{
    if ls.len() > 0 {
        lemma_take_links_once(store, w, ls.drop_last(), hop);
        let p = take_links(store, w, ls.drop_last(), hop);
        let l = ls.last();
        let key = (l.source, l.target, l.kind);
        let d = if p.seen.contains(key) {
            p
        } else {
            WalkView {
                seen: p.seen.insert(key),
                edges: match (store.node(l.source), store.node(l.target)) {
                    (Some(a), Some(b)) => p.edges.push(
                        EdgeView { source: json_id(a), target: json_id(b), kind: kind_name(l.kind) },
                    ),
                    _ => p.edges,
                },
                ..p
            }
        };
        lemma_reach_once(d, l.next, hop, l.expand);
    }
}

proof fn lemma_start_once(roots: Seq<Node>)
    ensures
        reaches_once(start(roots)),
        roots.len() > 0 ==> start(roots).queue.len() > 0 && start(roots).queue[0] == (
            roots[0].id,
            0nat,
            true,
        ),
    decreases roots.len(),
{
    if roots.len() > 0 {
        let p = roots.drop_last();
        lemma_start_once(p);
        lemma_reach_once(start(p), roots.last().id, 0, true);
        if p.len() > 0 {
            assert(p[0] == roots[0]);
        } else {
            assert(start(p).queue.len() == 0);
        }
    }
}

proof fn lemma_after_once(store: Store, q: Request, roots: Seq<Node>, k: nat)
    ensures
        reaches_once(after(store, q, roots, k)),
    decreases k,
{
    if k == 0 {
        lemma_start_once(roots);
    } else {
        lemma_after_once(store, q, roots, (k - 1) as nat);
        let w = after(store, q, roots, (k - 1) as nat);
        if k - 1 < w.queue.len() {
            let id = w.queue[k - 1].0;
            let hop = w.queue[k - 1].1;
            if let Some(n) = store.node(id) {
                let d = WalkView {
                    nodes: w.nodes.push(node_view(n, hop)),
                    used: w.used + n.token_cost as nat,
                    ..w
                };
                lemma_take_links_once(store, d, links(store, q, id, hop), hop + 1);
            }
        }
    }
}

/// Every walk ends: there is no more to reach than there are ids.
pub proof fn law_every_walk_ends(store: Store, q: Request, roots: Seq<Node>)
    ensures
        exists|k: nat| is_done(store, q, roots, k),
{
    let k = 0x1_0000_0000_0000_0000nat;
    let w = after(store, q, roots, k);
    lemma_after_once(store, q, roots, k);
    let ids = Seq::new(w.queue.len(), |i: int| w.queue[i].0);
    assert(ids.no_duplicates());
    lemma_ids_bounded(ids);
    assert(is_done(store, q, roots, k));
}

proof fn lemma_after_keeps_first(store: Store, q: Request, roots: Seq<Node>, k: nat)
    requires
        roots.len() > 0,
        store.node(roots[0].id) matches Some(n) && !is_skipped(q, n, 0),
        k >= 1,
    ensures
        after(store, q, roots, k).nodes.len() > 0,
        after(store, q, roots, k).nodes[0] == node_view(store.node(roots[0].id).unwrap(), 0),
    decreases k,
{
    let n = store.node(roots[0].id).unwrap();
    if k == 1 {
        reveal_with_fuel(after, 2);
        lemma_start_once(roots);
        lemma_start(roots);
        let w = start(roots);
        let d = WalkView {
            nodes: w.nodes.push(node_view(n, 0)),
            used: w.used + n.token_cost as nat,
            ..w
        };
        lemma_take_links_keep_nodes(store, d, links(store, q, roots[0].id, 0), 1);
    } else {
        lemma_after_keeps_first(store, q, roots, (k - 1) as nat);
        let w = after(store, q, roots, (k - 1) as nat);
        if k - 1 < w.queue.len() {
            let id = w.queue[k - 1].0;
            let hop = w.queue[k - 1].1;
            if let Some(m) = store.node(id) {
                let d = WalkView {
                    nodes: w.nodes.push(node_view(m, hop)),
                    used: w.used + m.token_cost as nat,
                    ..w
                };
                lemma_take_links_keep_nodes(store, d, links(store, q, id, hop), hop + 1);
            }
        }
    }
}

/// The first starting node is drawn first, whatever the budget, unless it is of a kind that no
/// drawing shows.
pub proof fn law_first_root_survives_any_budget(store: Store, q: Request, roots: Seq<Node>)
    requires
        roots.len() > 0,
        store.node(roots[0].id) matches Some(n) && !is_skipped(q, n, 0),
    ensures
        walked(store, q, roots).nodes.len() > 0,
        walked(store, q, roots).nodes[0] == node_view(store.node(roots[0].id).unwrap(), 0),
{
    law_every_walk_ends(store, q, roots);
    let k = choose|k: nat| is_done(store, q, roots, k);
    lemma_start_once(roots);
    if k == 0 {
        assert(after(store, q, roots, 0) == start(roots));
    }
    lemma_after_keeps_first(store, q, roots, k);
}

/// Every edge of a drawing joins two drawn nodes.
pub proof fn law_no_edge_dangles(edges: Seq<EdgeView>, nodes: Seq<NodeView>)
    ensures
        forall|i: int|
            0 <= i < anchored_edges(edges, nodes).len() ==> has_id(
                nodes,
                (#[trigger] anchored_edges(edges, nodes)[i]).source,
            ) && has_id(nodes, anchored_edges(edges, nodes)[i].target),
    decreases edges.len(),
{
    if edges.len() > 0 {
        law_no_edge_dangles(edges.drop_last(), nodes);
        let rest = anchored_edges(edges.drop_last(), nodes);
        let all = anchored_edges(edges, nodes);
        assert forall|i: int| 0 <= i < all.len() implies has_id(nodes, (#[trigger] all[i]).source)
            && has_id(nodes, all[i].target) by {
            if i < rest.len() {
                assert(all[i] == rest[i]);
            }
        }
    }
}

proof fn lemma_links_draw_nothing(store: Store, w: WalkView, ls: Seq<Link>, hop: nat)
    ensures
        take_links(store, w, ls, hop).nodes == w.nodes,
    decreases ls.len(),
{
    if ls.len() > 0 {
        lemma_links_draw_nothing(store, w, ls.drop_last(), hop);
    }
}

proof fn lemma_start_draws_nothing(roots: Seq<Node>)
    ensures
        start(roots).nodes.len() == 0,
    decreases roots.len(),
{
    if roots.len() > 0 {
        lemma_start_draws_nothing(roots.drop_last());
    }
}

proof fn lemma_drawing_is_bounded(store: Store, q: Request, roots: Seq<Node>, k: nat)
    ensures
        after(store, q, roots, k).nodes.len() <= MAX_GRAPH_JSON_NODES,
    decreases k,
{
    if k == 0 {
        lemma_start_draws_nothing(roots);
    } else {
        lemma_drawing_is_bounded(store, q, roots, (k - 1) as nat);
        let w = after(store, q, roots, (k - 1) as nat);
        if k - 1 < w.queue.len() {
            let (id, hop, expand) = w.queue[k - 1];
            if let Some(n) = store.node(id) {
                let d = WalkView {
                    nodes: w.nodes.push(node_view(n, hop)),
                    used: w.used + n.token_cost as nat,
                    ..w
                };
                lemma_links_draw_nothing(store, d, links(store, q, id, hop), hop + 1);
            }
        }
    }
}

/// However many nodes a walk reaches, a drawing has at most so many.
pub proof fn law_drawing_is_bounded(store: Store, q: Request, roots: Seq<Node>)
    ensures
        walked(store, q, roots).nodes.len() <= MAX_GRAPH_JSON_NODES,
{
    lemma_drawing_is_bounded(store, q, roots, choose|k: nat| is_done(store, q, roots, k));
}

} // verus!
