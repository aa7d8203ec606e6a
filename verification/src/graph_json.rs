//! Drawings of the graph as JSON.

use vstd::prelude::*;

use crate::global::{candidates, Repo};
use crate::graph::{
    roots_of, walk, EdgeView, GraphEdge, GraphNode, NodeView, Request, WalkRequest,
};
use crate::json::{
    bool_value, list_value, no_fields, null_value, object_value, opt_number_value, parse_value, put,
    text_value, texts_value, to_text, uint_value, JsonView,
};
use crate::notes::read_note_signals;
use crate::overview::{overview_graph, overview_merged};
use crate::refs::{resolve_reference_targets, RefTarget};
use crate::sanitize::is_valid_arg;
use crate::store::{opt_view, Node, Store};
use crate::text::{digit_char, list_has, same};

verus! {

// ---------------------------------------------------------------- one node, one edge

pub open spec fn power(base: nat, n: nat) -> nat
    decreases n,
{
    if n == 0 {
        1
    } else {
        base * power(base, (n - 1) as nat)
    }
}

/// The score of a node in thousandths: it falls to seven tenths with every step, and is rounded to
/// the nearest.
pub open spec fn thousandths(hop: nat) -> nat {
    (2000 * power(7, hop) + power(10, hop)) / (2 * power(10, hop))
}

/// At most a thousand thousandths as a decimal, without zeros at the end but for one behind the point.
pub open spec fn decimal(t: nat) -> Seq<char> {
    let (a, b, c) = (
        crate::text::digit(t / 100 % 10),
        crate::text::digit(t / 10 % 10),
        crate::text::digit(t % 10),
    );
    if t >= 1000 {
        "1.0"@
    } else if t % 10 != 0 {
        "0."@ + seq![a, b, c]
    } else if t / 10 % 10 != 0 {
        "0."@ + seq![a, b]
    } else {
        "0."@ + seq![a]
    }
}

/// The score of a node as a decimal.
pub open spec fn score_text(hop: nat) -> Seq<char> {
    decimal(thousandths(hop))
}

proof fn lemma_score_vanishes(hop: nat)
    requires
        hop >= 22,
    ensures
        2000 * power(7, hop) < power(10, hop),
    decreases hop,
{
    if hop == 22 {
        reveal_with_fuel(power, 24);
    } else {
        lemma_score_vanishes((hop - 1) as nat);
    }
}

proof fn lemma_power_bounds(n: nat)
    requires
        n <= 22,
    ensures
        1 <= power(7, n) <= power(10, n) <= 10_000_000_000_000_000_000_000,
{
    assert(power(10, 22) == 10_000_000_000_000_000_000_000) by {
        reveal_with_fuel(power, 23);
    }
    lemma_power_grows(n, 22);
}

proof fn lemma_power_grows(i: nat, n: nat)
    requires
        i <= n,
    ensures
        1 <= power(7, i) <= power(10, i) <= power(10, n),
    decreases n,
{
    if i < n {
        lemma_power_grows(i, (n - 1) as nat);
    } else if n > 0 {
        lemma_power_grows((n - 1) as nat, (n - 1) as nat);
    }
}

fn thousandths_of(hop: u8) -> (r: u32)
    ensures
        r == thousandths(hop as nat),
{
    if hop >= 22 {
        proof {
            lemma_score_vanishes(hop as nat);
            let (x, y) = (2000 * power(7, hop as nat), power(10, hop as nat));
            assert((x + y) / (2 * y) == 0) by (nonlinear_arith)
                requires
                    0 <= x < y,
            ;
        }
        return 0;
    }
    let mut a: u128 = 1;
    let mut b: u128 = 1;
    let mut i: u8 = 0;
    while i < hop
        invariant
            i <= hop < 22,
            a == power(7, i as nat),
            b == power(10, i as nat),
        decreases hop - i,
    {
        proof {
            lemma_power_bounds(i as nat);
        }
        a = 7 * a;
        b = 10 * b;
        i += 1;
    }
    proof {
        lemma_power_bounds(hop as nat);
        assert((2000 * a + b) / (2 * b) <= 2001) by (nonlinear_arith)
            requires
                1 <= b,
                a <= b,
        ;
    }
    ((2000 * a + b) / (2 * b)) as u32
}

fn decimal_of(t: u32) -> (r: String)
    ensures
        r@ == decimal(t as nat),
{
    if t >= 1000 {
        return "1.0".to_owned();
    }
    let mut r = "0.".to_owned();
    let (a, b, c): (u8, u8, u8) = ((t / 100 % 10) as u8, (t / 10 % 10) as u8, (t % 10) as u8);
    r.push(digit_char(a));
    if b != 0 || c != 0 {
        r.push(digit_char(b));
    }
    if c != 0 {
        r.push(digit_char(c));
    }
    assert(r@ =~= decimal(t as nat));
    r
}

/// The score of a node.
pub open spec fn score_json(hop: nat) -> JsonView {
    match crate::json::json_parsed(score_text(hop)) {
        Some(v) => v,
        None => JsonView::Null,
    }
}

fn score_value(hop: u8) -> (r: serde_json::Value)
    ensures
        crate::json::json_of(r) == score_json(hop as nat),
{
    let text = decimal_of(thousandths_of(hop));
    match parse_value(text.as_str()) {
        Some(v) => v,
        None => null_value(),
    }
}

/// The fields of a drawn node.
pub open spec fn node_fields(n: NodeView) -> Seq<(Seq<char>, JsonView)> {
    let base = seq![
        ("id"@, JsonView::Text(n.id)),
        ("label"@, JsonView::Text(n.label)),
        ("kind"@, JsonView::Text(n.kind)),
        ("path"@, JsonView::Text(n.path)),
        ("package"@, JsonView::Text(n.package)),
        ("score"@, score_json(n.hop)),
        ("line"@, crate::json::opt_number(n.line)),
    ];
    if n.hop == 0 {
        base.push(("root"@, JsonView::Bool(true)))
    } else {
        base
    }
}

fn node_value(n: &GraphNode) -> (r: serde_json::Value)
    ensures
        crate::json::json_of(r) == crate::json::object(node_fields(n@)),
{
    let mut f = no_fields();
    put(&mut f, "id", text_value(n.id.as_str()));
    put(&mut f, "label", text_value(n.label.as_str()));
    put(&mut f, "kind", text_value(n.kind.as_str()));
    put(&mut f, "path", text_value(n.path.as_str()));
    put(&mut f, "package", text_value(n.package.as_str()));
    put(&mut f, "score", score_value(n.hop));
    put(&mut f, "line", opt_number_value(n.line));
    if n.hop == 0 {
        put(&mut f, "root", bool_value(true));
    }
    assert(crate::json::named(f@) =~= node_fields(n@));
    object_value(f)
}

/// The fields of a drawn edge.
pub open spec fn edge_fields(e: EdgeView) -> Seq<(Seq<char>, JsonView)> {
    seq![
        ("source"@, JsonView::Text(e.source)),
        ("target"@, JsonView::Text(e.target)),
        ("kind"@, JsonView::Text(e.kind)),
    ]
}

fn edge_value(e: &GraphEdge) -> (r: serde_json::Value)
    ensures
        crate::json::json_of(r) == crate::json::object(edge_fields(e@)),
{
    let mut f = no_fields();
    put(&mut f, "source", text_value(e.source.as_str()));
    put(&mut f, "target", text_value(e.target.as_str()));
    put(&mut f, "kind", text_value(e.kind));
    assert(crate::json::named(f@) =~= edge_fields(e@));
    object_value(f)
}

pub open spec fn node_list(v: Seq<NodeView>) -> JsonView {
    JsonView::List(Seq::new(v.len(), |i: int| crate::json::object(node_fields(v[i]))))
}

pub open spec fn edge_list(v: Seq<EdgeView>) -> JsonView {
    JsonView::List(Seq::new(v.len(), |i: int| crate::json::object(edge_fields(v[i]))))
}

fn node_list_value(v: &Vec<GraphNode>) -> (r: serde_json::Value)
    ensures
        crate::json::json_of(r) == node_list(crate::graph::node_views(v@)),
{
    let ghost nv = crate::graph::node_views(v@);
    let mut out: Vec<serde_json::Value> = Vec::new();
    let mut i: usize = 0;
    while i < v.len()
        invariant
            i <= v@.len(),
            nv == crate::graph::node_views(v@),
            out@.len() == i,
            forall|j: int|
                0 <= j < i ==> crate::json::json_of(#[trigger] out@[j]) == crate::json::object(
                    node_fields(nv[j]),
                ),
        decreases v@.len() - i,
    {
        out.push(node_value(&v[i]));
        i += 1;
    }
    assert(crate::json::jsons_of(out@) =~= Seq::new(
        nv.len(),
        |i: int| crate::json::object(node_fields(nv[i])),
    ));
    list_value(out)
}

fn edge_list_value(v: &Vec<GraphEdge>) -> (r: serde_json::Value)
    ensures
        crate::json::json_of(r) == edge_list(crate::graph::edge_views(v@)),
{
    let ghost nv = crate::graph::edge_views(v@);
    let mut out: Vec<serde_json::Value> = Vec::new();
    let mut i: usize = 0;
    while i < v.len()
        invariant
            i <= v@.len(),
            nv == crate::graph::edge_views(v@),
            out@.len() == i,
            forall|j: int|
                0 <= j < i ==> crate::json::json_of(#[trigger] out@[j]) == crate::json::object(
                    edge_fields(nv[j]),
                ),
        decreases v@.len() - i,
    {
        out.push(edge_value(&v[i]));
        i += 1;
    }
    assert(crate::json::jsons_of(out@) =~= Seq::new(
        nv.len(),
        |i: int| crate::json::object(edge_fields(nv[i])),
    ));
    list_value(out)
}

/// One of several definitions of a name.
pub open spec fn candidate_fields(n: Node) -> Seq<(Seq<char>, JsonView)> {
    seq![
        ("signature"@, JsonView::Text(n.signature@)),
        ("kind"@, JsonView::Text(n.kind@)),
        ("path"@, JsonView::Text(n.path@)),
        ("line"@, crate::json::opt_number(n.line)),
    ]
}

fn candidate_list_value(v: &Vec<Node>) -> (r: serde_json::Value)
    ensures
        crate::json::json_of(r) == candidate_list(v@),
{
    let ghost nv = v@;
    let mut out: Vec<serde_json::Value> = Vec::new();
    let mut i: usize = 0;
    while i < v.len()
        invariant
            i <= v@.len(),
            nv == v@,
            out@.len() == i,
            forall|j: int|
                0 <= j < i ==> crate::json::json_of(#[trigger] out@[j]) == crate::json::object(
                    candidate_fields(nv[j]),
                ),
        decreases v@.len() - i,
    {
        let n = &v[i];
        let mut f = no_fields();
        put(&mut f, "signature", text_value(n.signature.as_str()));
        put(&mut f, "kind", text_value(n.kind.as_str()));
        put(&mut f, "path", text_value(n.path.as_str()));
        put(&mut f, "line", opt_number_value(n.line));
        assert(crate::json::named(f@) =~= candidate_fields(*n));
        out.push(object_value(f));
        i += 1;
    }
    assert(crate::json::jsons_of(out@) =~= Seq::new(
        nv.len(),
        |i: int| crate::json::object(candidate_fields(nv[i])),
    ));
    list_value(out)
}

pub open spec fn candidate_list(v: Seq<Node>) -> JsonView {
    JsonView::List(Seq::new(v.len(), |i: int| crate::json::object(candidate_fields(v[i]))))
}

// ---------------------------------------------------------------- one repository

/// What is searched for: everything with an extension where all files are wanted.
pub open spec fn search_term(query: Seq<char>, kind: Seq<char>) -> Seq<char> {
    if kind == "file"@ && query.len() == 0 {
        "."@
    } else {
        query
    }
}

/// The nodes that a walk starts from; none where the search failed.
pub open spec fn start_nodes(store: Store, query: Seq<char>, kind: Seq<char>) -> Seq<Node> {
    match store.name_hits(search_term(query, kind)) {
        Some(hits) => crate::graph::roots(hits, query, kind),
        None => Seq::empty(),
    }
}

/// The definitions of an ambiguous symbol name.
pub open spec fn ambiguous(store: Store, query: Seq<char>, kind: Seq<char>) -> Seq<Node> {
    let nodes = crate::refs::without_headers(crate::refs::resolved(store, query, None));
    if kind.len() == 0 && query.len() > 0 && nodes.len() > 1 {
        nodes
    } else {
        Seq::empty()
    }
}

/// What is known of the language of the first starting node, so that nothing found can be told from
/// nothing to be seen.
pub open spec fn coverage_fields(store: Store, language: Seq<char>) -> Seq<(Seq<char>, JsonView)> {
    seq![
        ("language"@, JsonView::Text(language)),
        (
            "semantic"@,
            JsonView::Bool(crate::text::views(store.call_languages@).contains(language)),
        ),
        ("phase_b_commit"@, crate::json::opt_text(store.meta_value("phase_b_commit"@))),
    ]
}

/// The fields of a drawing. Those after the first three are there only where they say something.
pub open spec fn graph_fields(
    store: Store,
    query: Seq<char>,
    q: Request,
    head: Option<Seq<char>>,
) -> Seq<(Seq<char>, JsonView)> {
    let roots = start_nodes(store, query, q.kind);
    let w = crate::graph::walked(store, q, roots);
    let found = ambiguous(store, query, q.kind);
    let signals = crate::notes::note_signals(store, head);
    let base = seq![
        ("nodes"@, node_list(w.nodes)),
        ("edges"@, edge_list(crate::graph::anchored_edges(w.edges, w.nodes))),
        ("coverage"@, crate::json::object(coverage_fields(store, roots[0].language@))),
    ];
    let one = if found.len() > 0 {
        base.push(("ambiguous"@, JsonView::Bool(true))).push(
            ("candidates"@, candidate_list(found)),
        )
    } else {
        base
    };
    let two = if q.budget > 0 {
        one.push(("token_budget"@, JsonView::Uint(q.budget))).push(
            ("truncated_by_budget"@, JsonView::Bool(w.cut)),
        )
    } else {
        one
    };
    if signals.len() > 0 {
        two.push(("signals"@, JsonView::List(crate::json::texts(signals))))
    } else {
        two
    }
}

/// A drawing without anything in it.
pub open spec fn empty_graph() -> Seq<char> {
    "{\"nodes\":[],\"edges\":[]}"@
}

/// The drawing around a symbol or a file.
pub open spec fn graph_text(store: Store, query: Seq<char>, q: Request, head: Option<Seq<char>>) -> Seq<
    char,
> {
    if start_nodes(store, query, q.kind).len() == 0 {
        empty_graph()
    } else {
        crate::json::json_text(crate::json::object(graph_fields(store, query, q, head)))
    }
}

fn start_nodes_of(store: &Store, query: &str, kind: &str) -> (r: Vec<Node>)
    ensures
        r@ == start_nodes(*store, query@, kind@),
{
    let term: &str = if same(kind, "file") && query.is_empty() {
        "."
    } else {
        query
    };
    match store.search_nodes_by_name(term) {
        Some(hits) => roots_of(&hits, query, kind),
        None => Vec::new(),
    }
}

fn ambiguous_of(store: &Store, query: &str, kind: &str) -> (r: Vec<Node>)
    ensures
        r@ == ambiguous(*store, query@, kind@),
{
    if kind.is_empty() && !query.is_empty() {
        match resolve_reference_targets(store, query, None) {
            RefTarget::Ambiguous(v) => v,
            _ => Vec::new(),
        }
    } else {
        Vec::new()
    }
}

fn coverage_value(store: &Store, language: &str) -> (r: serde_json::Value)
    ensures
        crate::json::json_of(r) == crate::json::object(coverage_fields(*store, language@)),
{
    let mut f = no_fields();
    put(&mut f, "language", text_value(language));
    put(&mut f, "semantic", bool_value(list_has(&store.call_languages, language)));
    let commit = match store.get_meta("phase_b_commit") {
        Some(c) => text_value(c.as_str()),
        None => null_value(),
    };
    put(&mut f, "phase_b_commit", commit);
    assert(crate::json::named(f@) =~= coverage_fields(*store, language@));
    object_value(f)
}

/// The drawing around a symbol or a file as JSON. `head` is the commit of the checkout, where it is
/// known.
pub fn get_graph_json_raw(store: &Store, query: &str, q: &WalkRequest, head: Option<&str>) -> (r:
    String)
    ensures
        r@ == graph_text(*store, query@, q@, opt_view(head)),
{
    let roots = start_nodes_of(store, query, q.kind);
    if roots.len() == 0 {
        return "{\"nodes\":[],\"edges\":[]}".to_owned();
    }
    let d = walk(store, q, &roots);
    let found = ambiguous_of(store, query, q.kind);
    let signals = read_note_signals(store, head);
    assert(crate::text::views(signals@).len() == signals@.len());
    let mut f = no_fields();
    put(&mut f, "nodes", node_list_value(&d.nodes));
    put(&mut f, "edges", edge_list_value(&d.edges));
    put(&mut f, "coverage", coverage_value(store, roots[0].language.as_str()));
    if found.len() > 0 {
        put(&mut f, "ambiguous", bool_value(true));
        put(&mut f, "candidates", candidate_list_value(&found));
    }
    if q.budget > 0 {
        put(&mut f, "token_budget", uint_value(q.budget as u64));
        put(&mut f, "truncated_by_budget", bool_value(d.cut));
    }
    if signals.len() > 0 {
        put(&mut f, "signals", texts_value(&signals));
    }
    assert(crate::json::named(f@) =~= graph_fields(*store, query@, q@, opt_view(head)));
    to_text(&object_value(f))
}

/// What a drawing is asked for.
#[derive(Debug, Clone, Copy)]
pub struct GraphJsonParams<'a> {
    pub query: &'a str,
    pub direction: &'a str,
    pub depth: u8,
    pub kind_filter: &'a str,
    pub token_budget: usize,
    pub mode: &'a str,
    pub path_prefix: &'a str,
}

/// A depth within its bounds.
pub open spec fn clamped_depth(depth: u8) -> u8 {
    if depth < 1 {
        1
    } else if depth > 4 {
        4
    } else {
        depth
    }
}

fn clamp_depth(depth: u8) -> (r: u8)
    ensures
        r == clamped_depth(depth),
{
    if depth < 1 {
        1
    } else if depth > 4 {
        4
    } else {
        depth
    }
}

impl<'a> GraphJsonParams<'a> {
    /// The walk that is asked for.
    pub open spec fn request(self, budget: nat) -> Request {
        Request {
            direction: self.direction@,
            depth: clamped_depth(self.depth) as nat,
            kind: self.kind_filter@,
            budget,
        }
    }

    /// A query that may be searched for; all files may be asked for without one.
    pub open spec fn query_ok(self) -> bool {
        (self.query@.len() == 0 && self.kind_filter@ == "file"@) || crate::sanitize::arg_ok(
            self.query@,
        )
    }

    /// A directory that may be asked for.
    pub open spec fn prefix_ok(self) -> bool {
        self.path_prefix@.len() == 0 || crate::sanitize::arg_ok(self.path_prefix@)
    }

    fn is_query_ok(&self) -> (r: bool)
        ensures
            r == self.query_ok(),
    {
        (self.query.is_empty() && same(self.kind_filter, "file")) || is_valid_arg(self.query)
    }

    fn is_prefix_ok(&self) -> (r: bool)
        ensures
            r == self.prefix_ok(),
    {
        self.path_prefix.is_empty() || is_valid_arg(self.path_prefix)
    }
}

/// The answer to a request for a drawing.
pub open spec fn graph_answer(store: Store, p: GraphJsonParams, head: Option<Seq<char>>) -> Seq<char> {
    if p.mode@ == "overview"@ {
        if p.prefix_ok() {
            crate::overview::overview_text(store, p.path_prefix@)
        } else {
            "{}"@
        }
    } else if p.mode@.len() != 0 || (p.kind_filter@.len() != 0 && p.kind_filter@ != "file"@)
        || !p.query_ok() {
        "{}"@
    } else {
        graph_text(store, p.query@, p.request(p.token_budget as nat), head)
    }
}

/// The drawing around a symbol or a file, or the overview of the repository, as JSON. `head` is the
/// commit of the caller's checkout, where it is known.
pub fn get_graph_json(store: &Store, params: &GraphJsonParams, head: Option<&str>) -> (r: String)
    ensures
        r@ == graph_answer(*store, *params, opt_view(head)),
{
    if same(params.mode, "overview") {
        if !params.is_prefix_ok() {
            return "{}".to_owned();
        }
        return overview_graph(store, params.path_prefix);
    }
    if !params.mode.is_empty() || (!params.kind_filter.is_empty() && !same(
        params.kind_filter,
        "file",
    )) || !params.is_query_ok() {
        return "{}".to_owned();
    }
    let q = WalkRequest {
        direction: params.direction,
        depth: clamp_depth(params.depth),
        kind: params.kind_filter,
        budget: params.token_budget,
    };
    get_graph_json_raw(store, params.query, &q, head)
}

// ---------------------------------------------------------------- several repositories

/// Drawings put together.
pub struct MergeView {
    pub nodes: Seq<NodeView>,
    pub edges: Seq<EdgeView>,
    pub signals: Seq<Seq<char>>,
}

/// The nodes that have an id which is not there yet, added.
pub open spec fn with_nodes(old: Seq<NodeView>, more: Seq<NodeView>) -> Seq<NodeView>
    decreases more.len(),
{
    if more.len() == 0 {
        old
    } else {
        let m = with_nodes(old, more.drop_last());
        let n = more.last();
        if n.id.len() == 0 || crate::graph::has_id(m, n.id) {
            m
        } else {
            m.push(n)
        }
    }
}

/// An edge between the two is there.
pub open spec fn has_edge(edges: Seq<EdgeView>, e: EdgeView) -> bool {
    exists|i: int|
        0 <= i < edges.len() && (#[trigger] edges[i]).source == e.source && edges[i].target
            == e.target
}

/// The edges that join what is not joined yet, added.
pub open spec fn with_edges(old: Seq<EdgeView>, more: Seq<EdgeView>) -> Seq<EdgeView>
    decreases more.len(),
{
    if more.len() == 0 {
        old
    } else {
        let m = with_edges(old, more.drop_last());
        let e = more.last();
        if e.source.len() == 0 || has_edge(m, e) {
            m
        } else {
            m.push(e)
        }
    }
}

/// The texts that are not there yet, added.
pub open spec fn with_texts(old: Seq<Seq<char>>, more: Seq<Seq<char>>) -> Seq<Seq<char>>
    decreases more.len(),
{
    if more.len() == 0 {
        old
    } else {
        let m = with_texts(old, more.drop_last());
        if m.contains(more.last()) {
            m
        } else {
            m.push(more.last())
        }
    }
}

/// What one repository adds; nothing where nothing is found in it.
pub open spec fn merge_one(m: MergeView, store: Store, query: Seq<char>, q: Request, head: Option<
    Seq<char>,
>) -> MergeView {
    let roots = start_nodes(store, query, q.kind);
    let w = crate::graph::walked(store, q, roots);
    if roots.len() == 0 {
        m
    } else {
        MergeView {
            nodes: with_nodes(m.nodes, w.nodes),
            edges: with_edges(m.edges, crate::graph::anchored_edges(w.edges, w.nodes)),
            signals: with_texts(m.signals, crate::notes::note_signals(store, head)),
        }
    }
}

/// The drawings of the first `n` of the given repositories, put together.
pub open spec fn merged(repos: Seq<Repo>, places: Seq<int>, n: int, query: Seq<char>, q: Request) -> MergeView
    decreases n,
{
    if n <= 0 {
        MergeView { nodes: Seq::empty(), edges: Seq::empty(), signals: Seq::empty() }
    } else {
        let m = merged(repos, places, n - 1, query, q);
        match repos[places[n - 1]].store {
            Some(store) => merge_one(m, store, query, q, repos[places[n - 1]].head_view()),
            None => m,
        }
    }
}

/// The fields of drawings put together.
pub open spec fn merge_fields(m: MergeView) -> Seq<(Seq<char>, JsonView)> {
    let base = seq![("nodes"@, node_list(m.nodes)), ("edges"@, edge_list(m.edges))];
    if m.signals.len() > 0 {
        base.push(("signals"@, JsonView::List(crate::json::texts(m.signals))))
    } else {
        base
    }
}

/// The answer over the registered repositories.
pub open spec fn graph_global(repos: Seq<Repo>, repo: Option<Seq<char>>, p: GraphJsonParams) -> Seq<
    char,
> {
    if p.mode@ == "overview"@ {
        if p.prefix_ok() {
            crate::overview::overview_global(repos, repo, p.path_prefix@)
        } else {
            "{}"@
        }
    } else if !p.query_ok() || (repo matches Some(name) && !crate::sanitize::arg_ok(name)) {
        "{}"@
    } else if repo matches Some(name) && crate::global::named(repos, name) is None {
        empty_graph()
    } else {
        let places = crate::global::addressed(repos, repo);
        crate::json::json_text(
            crate::json::object(
                merge_fields(merged(repos, places, places.len() as int, p.query@, p.request(0))),
            ),
        )
    }
}

struct Merge {
    nodes: Vec<GraphNode>,
    edges: Vec<GraphEdge>,
    signals: Vec<String>,
}

impl Merge {
    spec fn is(self, m: MergeView) -> bool {
        &&& crate::graph::node_views(self.nodes@) == m.nodes
        &&& crate::graph::edge_views(self.edges@) == m.edges
        &&& crate::text::views(self.signals@) == m.signals
    }

    fn has_id(&self, id: &str) -> (r: bool)
        ensures
            r == crate::graph::has_id(crate::graph::node_views(self.nodes@), id@),
    {
        let ghost nv = crate::graph::node_views(self.nodes@);
        let mut i: usize = 0;
        while i < self.nodes.len()
            invariant
                nv == crate::graph::node_views(self.nodes@),
                i <= self.nodes@.len(),
                forall|j: int| 0 <= j < i ==> (#[trigger] nv[j]).id != id@,
            decreases self.nodes@.len() - i,
        {
            assert(nv[i as int] == self.nodes@[i as int]@);
            if same(self.nodes[i].id.as_str(), id) {
                return true;
            }
            i += 1;
        }
        false
    }

    fn has_edge(&self, e: &GraphEdge) -> (r: bool)
        ensures
            r == has_edge(crate::graph::edge_views(self.edges@), e@),
    {
        let ghost ev = crate::graph::edge_views(self.edges@);
        let mut i: usize = 0;
        while i < self.edges.len()
            invariant
                ev == crate::graph::edge_views(self.edges@),
                i <= self.edges@.len(),
                forall|j: int|
                    0 <= j < i ==> !((#[trigger] ev[j]).source == e@.source && ev[j].target
                        == e@.target),
            decreases self.edges@.len() - i,
        {
            assert(ev[i as int] == self.edges@[i as int]@);
            if same(self.edges[i].source.as_str(), e.source.as_str()) && same(
                self.edges[i].target.as_str(),
                e.target.as_str(),
            ) {
                return true;
            }
            i += 1;
        }
        false
    }

    fn add_nodes(&mut self, more: &Vec<GraphNode>)
        ensures
            crate::graph::node_views(final(self).nodes@) == with_nodes(
                crate::graph::node_views(old(self).nodes@),
                crate::graph::node_views(more@),
            ),
            final(self).edges == old(self).edges,
            final(self).signals == old(self).signals,
    {
        let ghost before = crate::graph::node_views(self.nodes@);
        let ghost mv = crate::graph::node_views(more@);
        let mut i: usize = 0;
        while i < more.len()
            invariant
                mv == crate::graph::node_views(more@),
                i <= more@.len(),
                self.edges == old(self).edges,
                self.signals == old(self).signals,
                crate::graph::node_views(self.nodes@) == with_nodes(before, mv.take(i as int)),
            decreases more@.len() - i,
        {
            assert(mv.take(i + 1).drop_last() =~= mv.take(i as int));
            assert(mv.take(i + 1).last() == more@[i as int]@);
            if !more[i].id.as_str().is_empty() && !self.has_id(more[i].id.as_str()) {
                let ghost was = self.nodes@;
                let n = more[i].copy();
                let ghost x = n@;
                self.nodes.push(n);
                assert(crate::graph::node_views(self.nodes@) =~= crate::graph::node_views(was).push(
                    x,
                ));
            }
            i += 1;
        }
        assert(mv.take(i as int) =~= mv);
    }

    fn add_edges(&mut self, more: &Vec<GraphEdge>)
        ensures
            crate::graph::edge_views(final(self).edges@) == with_edges(
                crate::graph::edge_views(old(self).edges@),
                crate::graph::edge_views(more@),
            ),
            final(self).nodes == old(self).nodes,
            final(self).signals == old(self).signals,
    {
        let ghost before = crate::graph::edge_views(self.edges@);
        let ghost mv = crate::graph::edge_views(more@);
        let mut i: usize = 0;
        while i < more.len()
            invariant
                mv == crate::graph::edge_views(more@),
                i <= more@.len(),
                self.nodes == old(self).nodes,
                self.signals == old(self).signals,
                crate::graph::edge_views(self.edges@) == with_edges(before, mv.take(i as int)),
            decreases more@.len() - i,
        {
            assert(mv.take(i + 1).drop_last() =~= mv.take(i as int));
            assert(mv.take(i + 1).last() == more@[i as int]@);
            if !more[i].source.as_str().is_empty() && !self.has_edge(&more[i]) {
                let ghost was = self.edges@;
                let e = more[i].copy();
                let ghost x = e@;
                self.edges.push(e);
                assert(crate::graph::edge_views(self.edges@) =~= crate::graph::edge_views(was).push(
                    x,
                ));
            }
            i += 1;
        }
        assert(mv.take(i as int) =~= mv);
    }

    fn add_signals(&mut self, more: &Vec<String>)
        ensures
            crate::text::views(final(self).signals@) == with_texts(
                crate::text::views(old(self).signals@),
                crate::text::views(more@),
            ),
            final(self).nodes == old(self).nodes,
            final(self).edges == old(self).edges,
    {
        let ghost before = crate::text::views(self.signals@);
        let ghost mv = crate::text::views(more@);
        let mut i: usize = 0;
        while i < more.len()
            invariant
                mv == crate::text::views(more@),
                i <= more@.len(),
                self.nodes == old(self).nodes,
                self.edges == old(self).edges,
                crate::text::views(self.signals@) == with_texts(before, mv.take(i as int)),
            decreases more@.len() - i,
        {
            assert(mv.take(i + 1).drop_last() =~= mv.take(i as int));
            assert(mv.take(i + 1).last() == more@[i as int]@);
            if !list_has(&self.signals, more[i].as_str()) {
                proof {
                    crate::text::lemma_views_push(self.signals@, more@[i as int]);
                }
                self.signals.push(more[i].clone());
            }
            i += 1;
        }
        assert(mv.take(i as int) =~= mv);
    }
}

fn merge_all(repos: &Vec<Repo>, repo: Option<&str>, query: &str, q: &WalkRequest) -> (m: Merge)
    ensures
        m.is(
            merged(
                repos@,
                crate::global::addressed(repos@, opt_view(repo)),
                crate::global::addressed(repos@, opt_view(repo)).len() as int,
                query@,
                q@,
            ),
        ),
{
    let picks = candidates(repos, repo);
    let ghost places = crate::global::addressed(repos@, opt_view(repo));
    assert(places.len() == picks@.len());
    let mut m = Merge { nodes: Vec::new(), edges: Vec::new(), signals: Vec::new() };
    proof {
        assert(crate::graph::node_views(m.nodes@) =~= Seq::<NodeView>::empty());
        assert(crate::graph::edge_views(m.edges@) =~= Seq::<EdgeView>::empty());
        assert(crate::text::views(m.signals@) =~= Seq::<Seq<char>>::empty());
    }
    let mut k: usize = 0;
    while k < picks.len()
        invariant
            k <= picks@.len(),
            places == crate::rank::ints(picks@),
            places.len() == picks@.len(),
            forall|j: int| 0 <= j < picks@.len() ==> #[trigger] picks@[j] < repos@.len(),
            m.is(merged(repos@, places, k as int, query@, q@)),
        decreases picks@.len() - k,
    {
        assert(places[k as int] == picks@[k as int]);
        let r = &repos[picks[k]];
        if let Some(store) = &r.store {
            let roots = start_nodes_of(store, query, q.kind);
            if roots.len() > 0 {
                let d = walk(store, q, &roots);
                m.add_nodes(&d.nodes);
                m.add_edges(&d.edges);
                let signals = read_note_signals(store, r.head_ref());
                m.add_signals(&signals);
            }
        }
        k += 1;
    }
    m
}

/// The drawings of one named repository, or of all, put together: of nodes with one id the first.
pub fn get_graph_json_global(repos: &Vec<Repo>, repo: Option<&str>, params: &GraphJsonParams) -> (r:
    String)
    ensures
        r@ == graph_global(repos@, opt_view(repo), *params),
{
    if same(params.mode, "overview") {
        if !params.is_prefix_ok() {
            return "{}".to_owned();
        }
        return overview_merged(repos, repo, params.path_prefix);
    }
    if !params.is_query_ok() {
        return "{}".to_owned();
    }
    if let Some(name) = repo {
        if !is_valid_arg(name) {
            return "{}".to_owned();
        }
        if !crate::overview::is_registered(repos, name) {
            return "{\"nodes\":[],\"edges\":[]}".to_owned();
        }
    }
    let q = WalkRequest {
        direction: params.direction,
        depth: clamp_depth(params.depth),
        kind: params.kind_filter,
        budget: 0,
    };
    let m = merge_all(repos, repo, params.query, &q);
    assert(crate::text::views(m.signals@).len() == m.signals@.len());
    let mut f = no_fields();
    put(&mut f, "nodes", node_list_value(&m.nodes));
    put(&mut f, "edges", edge_list_value(&m.edges));
    if m.signals.len() > 0 {
        put(&mut f, "signals", texts_value(&m.signals));
    }
    let ghost places = crate::global::addressed(repos@, opt_view(repo));
    assert(crate::json::named(f@) =~= merge_fields(
        merged(
            repos@,
            places,
            places.len() as int,
            params.query@,
            params.request(0),
        ),
    ));
    to_text(&object_value(f))
}

// ---------------------------------------------------------------- laws

proof fn lemma_with_nodes_distinct(old: Seq<NodeView>, more: Seq<NodeView>)
    requires
        crate::graph::distinct_ids(old),
    ensures
        crate::graph::distinct_ids(with_nodes(old, more)),
    decreases more.len(),
{
    if more.len() > 0 {
        lemma_with_nodes_distinct(old, more.drop_last());
        let m = with_nodes(old, more.drop_last());
        let n = more.last();
        if !crate::graph::has_id(m, n.id) {
            let p = m.push(n);
            assert forall|i: int, j: int| 0 <= i < j < p.len() implies (#[trigger] p[i]).id != (
            #[trigger] p[j]).id by {
                if j == m.len() {
                    assert(p[i] == m[i]);
                }
            }
        }
    }
}

/// Drawings put together hold no id twice, whatever the repositories hold.
pub proof fn law_merged_ids_are_distinct(
    repos: Seq<Repo>,
    places: Seq<int>,
    n: int,
    query: Seq<char>,
    q: Request,
)
    ensures
        crate::graph::distinct_ids(merged(repos, places, n, query, q).nodes),
    decreases n,
{
    if n > 0 {
        law_merged_ids_are_distinct(repos, places, n - 1, query, q);
        let m = merged(repos, places, n - 1, query, q);
        if let Some(store) = repos[places[n - 1]].store {
            let roots = start_nodes(store, query, q.kind);
            lemma_with_nodes_distinct(m.nodes, crate::graph::walked(store, q, roots).nodes);
        }
    }
}

} // verus!
