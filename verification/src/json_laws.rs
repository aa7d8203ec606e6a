//! The members of the JSON answers.

use vstd::prelude::*;

use crate::graph::{anchored_edges, walked, EdgeView, NodeView, Request};
use crate::graph_json::{edge_fields, graph_fields, graph_text, node_fields, start_nodes};
use crate::json::{fields, json_text, object, JsonView};
use crate::overview::{OverviewView, TileView};
use crate::store::{Node, Store};

verus! {

/// The member of an object.
pub open spec fn member(v: JsonView, name: Seq<char>) -> Option<JsonView> {
    match v {
        JsonView::Object(m) => if m.contains_key(name) {
            Some(m[name])
        } else {
            None
        },
        _ => None,
    }
}

proof fn lemma_field(v: Seq<(Seq<char>, JsonView)>, k: int)
    requires
        0 <= k < v.len(),
        forall|j: int| k < j < v.len() ==> (#[trigger] v[j]).0 != v[k].0,
    ensures
        member(object(v), v[k].0) == Some(v[k].1),
    decreases v.len(),
{
    let p = v.drop_last();
    if k < p.len() {
        assert(v[v.len() - 1].0 != v[k].0);
        assert forall|j: int| k < j < p.len() implies (#[trigger] p[j]).0 != p[k].0 by {
            assert(p[j] == v[j]);
        }
        lemma_field(p, k);
        assert(p[k] == v[k]);
    }
}

proof fn lemma_no_field(v: Seq<(Seq<char>, JsonView)>, name: Seq<char>)
    requires
        forall|j: int| 0 <= j < v.len() ==> (#[trigger] v[j]).0 != name,
    ensures
        member(object(v), name) is None,
    decreases v.len(),
{
    if v.len() > 0 {
        let p = v.drop_last();
        assert(v[v.len() - 1].0 != name);
        assert forall|j: int| 0 <= j < p.len() implies (#[trigger] p[j]).0 != name by {
            assert(p[j] == v[j]);
        }
        lemma_no_field(p, name);
    }
}

/// The names of the members differ.
proof fn lemma_names()
    ensures
        "id"@ != "label"@ && "id"@ != "kind"@ && "id"@ != "path"@ && "id"@ != "package"@ && "id"@
            != "score"@ && "id"@ != "line"@ && "id"@ != "root"@ && "id"@ != "file_count"@ && "id"@
            != "dependents"@ && "id"@ != "ghost"@,
        "label"@ != "kind"@ && "label"@ != "path"@ && "label"@ != "package"@ && "label"@ != "score"@
            && "label"@ != "line"@ && "label"@ != "root"@ && "label"@ != "file_count"@ && "label"@
            != "dependents"@ && "label"@ != "ghost"@,
        "kind"@ != "path"@ && "kind"@ != "package"@ && "kind"@ != "score"@ && "kind"@ != "line"@
            && "kind"@ != "root"@ && "kind"@ != "file_count"@ && "kind"@ != "dependents"@ && "kind"@
            != "ghost"@ && "kind"@ != "source"@ && "kind"@ != "target"@ && "kind"@ != "count"@,
        "path"@ != "package"@ && "path"@ != "score"@ && "path"@ != "line"@ && "path"@ != "root"@
            && "path"@ != "ghost"@,
        "package"@ != "score"@ && "package"@ != "line"@ && "package"@ != "root"@,
        "score"@ != "line"@ && "score"@ != "root"@ && "line"@ != "root"@,
        "file_count"@ != "dependents"@ && "file_count"@ != "ghost"@ && "dependents"@ != "ghost"@,
        "source"@ != "target"@ && "source"@ != "count"@ && "target"@ != "count"@,
        "nodes"@ != "edges"@ && "nodes"@ != "mode"@ && "edges"@ != "mode"@ && "nodes"@ != "path_prefix"@
            && "edges"@ != "path_prefix"@ && "mode"@ != "path_prefix"@,
        "nodes"@ != "coverage"@ && "nodes"@ != "ambiguous"@ && "nodes"@ != "candidates"@ && "nodes"@
            != "token_budget"@ && "nodes"@ != "truncated_by_budget"@ && "nodes"@ != "signals"@,
        "edges"@ != "coverage"@ && "edges"@ != "ambiguous"@ && "edges"@ != "candidates"@ && "edges"@
            != "token_budget"@ && "edges"@ != "truncated_by_budget"@ && "edges"@ != "signals"@,
        "coverage"@ != "ambiguous"@ && "coverage"@ != "candidates"@ && "coverage"@ != "token_budget"@
            && "coverage"@ != "truncated_by_budget"@ && "coverage"@ != "signals"@,
        "ambiguous"@ != "candidates"@ && "ambiguous"@ != "token_budget"@ && "ambiguous"@
            != "truncated_by_budget"@ && "ambiguous"@ != "signals"@,
        "candidates"@ != "token_budget"@ && "candidates"@ != "truncated_by_budget"@ && "candidates"@
            != "signals"@,
        "token_budget"@ != "truncated_by_budget"@ && "token_budget"@ != "signals"@
            && "truncated_by_budget"@ != "signals"@,
{
    reveal_strlit("id");
    reveal_strlit("label");
    reveal_strlit("kind");
    reveal_strlit("path");
    reveal_strlit("package");
    reveal_strlit("score");
    reveal_strlit("line");
    reveal_strlit("root");
    reveal_strlit("file_count");
    reveal_strlit("dependents");
    reveal_strlit("ghost");
    reveal_strlit("source");
    reveal_strlit("target");
    reveal_strlit("count");
    reveal_strlit("nodes");
    reveal_strlit("edges");
    reveal_strlit("mode");
    reveal_strlit("path_prefix");
    reveal_strlit("coverage");
    reveal_strlit("ambiguous");
    reveal_strlit("candidates");
    reveal_strlit("token_budget");
    reveal_strlit("truncated_by_budget");
    reveal_strlit("signals");
    assert("id"@.len() == 2);
    assert("label"@.len() == 5);
    assert("kind"@.len() == 4);
    assert("path"@.len() == 4);
    assert("package"@.len() == 7);
    assert("score"@.len() == 5);
    assert("line"@.len() == 4);
    assert("root"@.len() == 4);
    assert("file_count"@.len() == 10);
    assert("dependents"@.len() == 10);
    assert("ghost"@.len() == 5);
    assert("source"@.len() == 6);
    assert("target"@.len() == 6);
    assert("count"@.len() == 5);
    assert("nodes"@.len() == 5);
    assert("edges"@.len() == 5);
    assert("mode"@.len() == 4);
    assert("path_prefix"@.len() == 11);
    assert("coverage"@.len() == 8);
    assert("ambiguous"@.len() == 9);
    assert("token_budget"@.len() == 12);
    assert("truncated_by_budget"@.len() == 19);
    assert("signals"@.len() == 7);
    assert("count"@[0] != "ghost"@[0]);
    assert("candidates"@.len() == 10);
    assert("label"@[0] != "score"@[0] && "label"@[0] != "ghost"@[0]);
    assert("kind"@[0] != "path"@[0] && "kind"@[0] != "line"@[0] && "kind"@[0] != "root"@[0]);
    assert("path"@[0] != "line"@[0] && "path"@[0] != "root"@[0] && "line"@[0] != "root"@[0]);
    assert("file_count"@[0] != "dependents"@[0]);
    assert("source"@[0] != "target"@[0]);
    assert("nodes"@[0] != "edges"@[0]);
}

/// A drawn node is told with its id, label, kind, file, package and line; and only a starting node is marked as one.
pub proof fn law_drawn_node_has_its_members(n: NodeView)
    ensures
        member(object(node_fields(n)), "id"@) == Some(JsonView::Text(n.id)),
        member(object(node_fields(n)), "label"@) == Some(JsonView::Text(n.label)),
        member(object(node_fields(n)), "kind"@) == Some(JsonView::Text(n.kind)),
        member(object(node_fields(n)), "path"@) == Some(JsonView::Text(n.path)),
        member(object(node_fields(n)), "package"@) == Some(JsonView::Text(n.package)),
        n.line matches Some(l) ==> member(object(node_fields(n)), "line"@) == Some(
            JsonView::Uint(l as nat),
        ),
        n.line is None ==> member(object(node_fields(n)), "line"@) == Some(JsonView::Null),
        n.hop == 0 ==> member(object(node_fields(n)), "root"@) == Some(JsonView::Bool(true)),
        n.hop > 0 ==> member(object(node_fields(n)), "root"@) is None,
{
    lemma_names();
    let v = node_fields(n);
    lemma_field(v, 0);
    lemma_field(v, 1);
    lemma_field(v, 2);
    lemma_field(v, 3);
    lemma_field(v, 4);
    lemma_field(v, 6);
    if n.hop == 0 {
        lemma_field(v, 7);
    } else {
        lemma_no_field(v, "root"@);
    }
}

/// A drawn edge is told with its source, its target and its kind.
pub proof fn law_drawn_edge_has_its_members(e: EdgeView)
    ensures
        member(object(edge_fields(e)), "source"@) == Some(JsonView::Text(e.source)),
        member(object(edge_fields(e)), "target"@) == Some(JsonView::Text(e.target)),
        member(object(edge_fields(e)), "kind"@) == Some(JsonView::Text(e.kind)),
{
    lemma_names();
    let v = edge_fields(e);
    lemma_field(v, 0);
    lemma_field(v, 1);
    lemma_field(v, 2);
}

/// The list tells the nodes one by one.
pub open spec fn tells_nodes(v: JsonView, nodes: Seq<NodeView>) -> bool {
    v matches JsonView::List(l) && l.len() == nodes.len() && forall|i: int|
        0 <= i < nodes.len() ==> {
            &&& member(#[trigger] l[i], "id"@) == Some(JsonView::Text(nodes[i].id))
            &&& member(l[i], "label"@) == Some(JsonView::Text(nodes[i].label))
            &&& member(l[i], "kind"@) == Some(JsonView::Text(nodes[i].kind))
            &&& member(l[i], "path"@) == Some(JsonView::Text(nodes[i].path))
            &&& member(l[i], "root"@) is Some <==> nodes[i].hop == 0
        }
}

/// The list tells the edges one by one.
pub open spec fn tells_edges(v: JsonView, edges: Seq<EdgeView>) -> bool {
    v matches JsonView::List(l) && l.len() == edges.len() && forall|i: int|
        0 <= i < edges.len() ==> {
            &&& member(#[trigger] l[i], "source"@) == Some(JsonView::Text(edges[i].source))
            &&& member(l[i], "target"@) == Some(JsonView::Text(edges[i].target))
            &&& member(l[i], "kind"@) == Some(JsonView::Text(edges[i].kind))
        }
}

proof fn lemma_tells(nodes: Seq<NodeView>, edges: Seq<EdgeView>)
    ensures
        tells_nodes(crate::graph_json::node_list(nodes), nodes),
        tells_edges(crate::graph_json::edge_list(edges), edges),
{
    if let JsonView::List(l) = crate::graph_json::node_list(nodes) {
        assert forall|i: int| 0 <= i < nodes.len() implies {
            &&& member(#[trigger] l[i], "id"@) == Some(JsonView::Text(nodes[i].id))
            &&& member(l[i], "label"@) == Some(JsonView::Text(nodes[i].label))
            &&& member(l[i], "kind"@) == Some(JsonView::Text(nodes[i].kind))
            &&& member(l[i], "path"@) == Some(JsonView::Text(nodes[i].path))
            &&& member(l[i], "root"@) is Some <==> nodes[i].hop == 0
        } by {
            law_drawn_node_has_its_members(nodes[i]);
        }
    }
    if let JsonView::List(l) = crate::graph_json::edge_list(edges) {
        assert forall|i: int| 0 <= i < edges.len() implies {
            &&& member(#[trigger] l[i], "source"@) == Some(JsonView::Text(edges[i].source))
            &&& member(l[i], "target"@) == Some(JsonView::Text(edges[i].target))
            &&& member(l[i], "kind"@) == Some(JsonView::Text(edges[i].kind))
        } by {
            law_drawn_edge_has_its_members(edges[i]);
        }
    }
}

/// A drawing around a symbol tells all nodes and edges of the walk from the symbol, and where it is ambiguous, that it is.
pub proof fn law_drawing_tells_the_walk(
    store: Store,
    query: Seq<char>,
    q: Request,
    head: Option<Seq<char>>,
)
    requires
        start_nodes(store, query, q.kind).len() > 0,
    ensures
        ({
            let w = walked(store, q, start_nodes(store, query, q.kind));
            exists|o: JsonView|
                {
                    &&& graph_text(store, query, q, head) == #[trigger] json_text(o)
                    &&& member(o, "nodes"@) is Some && tells_nodes(member(o, "nodes"@)->0, w.nodes)
                    &&& member(o, "edges"@) is Some && tells_edges(
                        member(o, "edges"@)->0,
                        anchored_edges(w.edges, w.nodes),
                    )
                    &&& crate::graph_json::ambiguous(store, query, q.kind).len() > 0 ==> member(
                        o,
                        "ambiguous"@,
                    ) == Some(JsonView::Bool(true))
                    &&& q.budget > 0 ==> member(o, "truncated_by_budget"@) == Some(JsonView::Bool(w.cut))
                }
        }),
{
    lemma_names();
    let v = graph_fields(store, query, q, head);
    let w = walked(store, q, start_nodes(store, query, q.kind));
    let found = crate::graph_json::ambiguous(store, query, q.kind);
    let o = object(v);
    assert(v[0] == ("nodes"@, crate::graph_json::node_list(w.nodes)));
    assert(v[1] == ("edges"@, crate::graph_json::edge_list(anchored_edges(w.edges, w.nodes))));
    assert(v[2].0 == "coverage"@);
    let a = if found.len() > 0 {
        5int
    } else {
        3
    };
    if found.len() > 0 {
        assert(v[3] == ("ambiguous"@, JsonView::Bool(true)));
        assert(v[4].0 == "candidates"@);
    }
    let b = if q.budget > 0 {
        a + 2
    } else {
        a
    };
    if q.budget > 0 {
        assert(v[a].0 == "token_budget"@);
        assert(v[a + 1] == ("truncated_by_budget"@, JsonView::Bool(w.cut)));
    }
    if v.len() > b {
        assert(v[b].0 == "signals"@);
        assert(v.len() == b + 1);
    }
    lemma_field(v, 0);
    lemma_field(v, 1);
    if found.len() > 0 {
        lemma_field(v, 3);
    }
    if q.budget > 0 {
        lemma_field(v, a + 1);
    }
    lemma_tells(w.nodes, anchored_edges(w.edges, w.nodes));
    assert(graph_text(store, query, q, head) == json_text(o));
}

// ---------------------------------------------------------------- overviews

/// A tile is told with its id, its label and its kind; a component with its files and its dependents.
pub proof fn law_tile_has_its_members(t: TileView)
    ensures
        t matches TileView::Region { name, files, dependents } ==> {
            let o = object(t.fields());
            &&& member(o, "id"@) == Some(JsonView::Text("pkg:"@ + name))
            &&& member(o, "label"@) == Some(JsonView::Text(name))
            &&& member(o, "kind"@) == Some(JsonView::Text("pkg"@))
            &&& member(o, "file_count"@) == Some(JsonView::Uint(files))
            &&& member(o, "dependents"@) == Some(JsonView::Uint(dependents))
            &&& member(o, "ghost"@) == Some(JsonView::Bool(false))
        },
        t matches TileView::File { path } ==> {
            let o = object(t.fields());
            &&& member(o, "id"@) == Some(JsonView::Text("file:"@ + path))
            &&& member(o, "kind"@) == Some(JsonView::Text("file"@))
            &&& member(o, "path"@) == Some(JsonView::Text(path))
            &&& member(o, "ghost"@) == Some(JsonView::Bool(false))
        },
        t matches TileView::Outside { name } ==> {
            let o = object(t.fields());
            &&& member(o, "id"@) == Some(JsonView::Text("pkg:"@ + name))
            &&& member(o, "label"@) == Some(JsonView::Text(name))
            &&& member(o, "kind"@) == Some(JsonView::Text("ghost"@))
            &&& member(o, "ghost"@) == Some(JsonView::Bool(true))
        },
{
    lemma_names();
    let v = t.fields();
    lemma_field(v, 0);
    lemma_field(v, 1);
    lemma_field(v, 2);
    lemma_field(v, 3);
    match t {
        TileView::Region { .. } => {
            lemma_field(v, 4);
            lemma_field(v, 5);
        },
        TileView::File { .. } => {
            lemma_field(v, 4);
        },
        TileView::Outside { .. } => {},
    }
}

/// A link is told with its source and target, and between components with the number of its occurrences.
pub proof fn law_link_has_its_members(l: (Seq<char>, Seq<char>), n: nat)
    ensures
        ({
            let o = object(crate::overview::link_fields(l).push(("count"@, JsonView::Uint(n))));
            &&& member(o, "source"@) == Some(JsonView::Text(l.0))
            &&& member(o, "target"@) == Some(JsonView::Text(l.1))
            &&& member(o, "kind"@) == Some(JsonView::Text("imports"@))
            &&& member(o, "count"@) == Some(JsonView::Uint(n))
        }),
        ({
            let o = object(crate::overview::link_fields(l));
            &&& member(o, "source"@) == Some(JsonView::Text(l.0))
            &&& member(o, "target"@) == Some(JsonView::Text(l.1))
            &&& member(o, "kind"@) == Some(JsonView::Text("imports"@))
        }),
{
    lemma_names();
    let v = crate::overview::link_fields(l);
    let w = v.push(("count"@, JsonView::Uint(n)));
    lemma_field(v, 0);
    lemma_field(v, 1);
    lemma_field(v, 2);
    lemma_field(w, 0);
    lemma_field(w, 1);
    lemma_field(w, 2);
    lemma_field(w, 3);
}

/// An overview tells every tile, and every link once with the number of its occurrences.
pub proof fn law_overview_tells_tiles_and_links(o: OverviewView, i: int, l: (Seq<char>, Seq<char>))
    ensures
        ({
            let v = object(crate::overview::overview_fields(o));
            &&& member(v, "nodes"@) matches Some(JsonView::List(t)) && t.len() == o.tiles.len() && (0
                <= i < o.tiles.len() ==> t[i] == object(o.tiles[i].fields()))
            &&& member(v, "edges"@) matches Some(JsonView::List(e)) && (o.links.contains(l) ==> exists|
                k: int,
            |
                {
                    &&& 0 <= k < e.len()
                    &&& member(#[trigger] e[k], "source"@) == Some(JsonView::Text(l.0))
                    &&& member(e[k], "target"@) == Some(JsonView::Text(l.1))
                    &&& member(e[k], "count"@) == Some(
                        JsonView::Uint(crate::overview::weight(o.links, l)),
                    )
                })
            &&& member(v, "mode"@) == Some(JsonView::Text("overview"@))
        }),
{
    lemma_names();
    let f = crate::overview::overview_fields(o);
    lemma_field(f, 0);
    lemma_field(f, 1);
    lemma_field(f, 2);
    let d = crate::overview::distinct(o.links);
    crate::overview::law_distinct_links(o.links);
    if o.links.contains(l) {
        assert(d.contains(l));
        let k = choose|k: int| 0 <= k < d.len() && d[k] == l;
        law_link_has_its_members(l, crate::overview::weight(o.links, l));
        if let JsonView::List(e) = crate::overview::weighted_list(o.links) {
            assert(member(e[k], "source"@) == Some(JsonView::Text(l.0)));
        }
    }
}

/// The number of occurrences of a link.
pub proof fn law_weight_counts_occurrences(
    a: Seq<(Seq<char>, Seq<char>)>,
    x: (Seq<char>, Seq<char>),
    l: (Seq<char>, Seq<char>),
)
    ensures
        crate::overview::weight(a.push(x), l) == crate::overview::weight(a, l) + (if x == l {
            1nat
        } else {
            0
        }),
        crate::overview::weight(Seq::empty(), l) == 0,
{
    assert(a.push(x).drop_last() =~= a);
}

/// A drawing of a directory tells every tile and every link.
pub proof fn law_drill_tells_tiles_and_links(o: OverviewView, prefix: Seq<char>, i: int, k: int)
    ensures
        ({
            let v = object(crate::overview::drill_fields(o, prefix));
            &&& member(v, "nodes"@) matches Some(JsonView::List(t)) && t.len() == o.tiles.len() && (0
                <= i < o.tiles.len() ==> t[i] == object(o.tiles[i].fields()))
            &&& member(v, "edges"@) matches Some(JsonView::List(e)) && e.len() == o.links.len() && (0
                <= k < o.links.len() ==> member(e[k], "source"@) == Some(
                JsonView::Text(o.links[k].0),
            ) && member(e[k], "target"@) == Some(JsonView::Text(o.links[k].1)))
            &&& member(v, "mode"@) == Some(JsonView::Text("prefix"@))
            &&& member(v, "path_prefix"@) == Some(JsonView::Text(prefix))
        }),
{
    lemma_names();
    let f = crate::overview::drill_fields(o, prefix);
    lemma_field(f, 0);
    lemma_field(f, 1);
    lemma_field(f, 2);
    lemma_field(f, 3);
    if 0 <= k < o.links.len() {
        law_link_has_its_members(o.links[k], 0);
    }
}

/// A text stands in the list.
pub open spec fn tells_text(v: JsonView, t: Seq<char>) -> bool {
    v matches JsonView::List(l) && l.contains(JsonView::Text(t))
}

/// The list tells the symbols one by one.
pub open spec fn tells_symbols(v: JsonView, nodes: Seq<Node>) -> bool {
    v matches JsonView::List(l) && l.len() == nodes.len() && forall|i: int|
        0 <= i < nodes.len() ==> {
            &&& member(#[trigger] l[i], "signature"@) == Some(JsonView::Text(nodes[i].signature@))
            &&& member(l[i], "kind"@) == Some(JsonView::Text(nodes[i].kind@))
            &&& member(l[i], "path"@) == Some(JsonView::Text(nodes[i].path@))
            &&& nodes[i].line matches Some(n) ==> member(l[i], "line"@) == Some(
                JsonView::Uint(n as nat),
            )
            &&& nodes[i].line is None ==> member(l[i], "line"@) == Some(JsonView::Null)
        }
}

proof fn lemma_tells_symbols(nodes: Seq<Node>)
    ensures
        tells_symbols(crate::graph_json::candidate_list(nodes), nodes),
{
    lemma_names();
    reveal_strlit("signature");
    reveal_strlit("kind");
    reveal_strlit("path");
    reveal_strlit("line");
    assert("signature"@.len() == 9 && "kind"@.len() == 4 && "path"@.len() == 4 && "line"@.len() == 4);
    if let JsonView::List(l) = crate::graph_json::candidate_list(nodes) {
        assert forall|i: int| 0 <= i < nodes.len() implies {
            &&& member(#[trigger] l[i], "signature"@) == Some(JsonView::Text(nodes[i].signature@))
            &&& member(l[i], "kind"@) == Some(JsonView::Text(nodes[i].kind@))
            &&& member(l[i], "path"@) == Some(JsonView::Text(nodes[i].path@))
            &&& nodes[i].line matches Some(n) ==> member(l[i], "line"@) == Some(
                JsonView::Uint(n as nat),
            )
            &&& nodes[i].line is None ==> member(l[i], "line"@) == Some(JsonView::Null)
        } by {
            let v = crate::graph_json::candidate_fields(nodes[i]);
            lemma_field(v, 0);
            lemma_field(v, 1);
            lemma_field(v, 2);
            lemma_field(v, 3);
        }
    }
}

/// A drawing tells the language of the symbol and whether its calls are known, the budget, the symbols among which it was chosen, and
/// every note on the index.
pub proof fn law_drawing_tells_what_it_rests_on(
    store: Store,
    query: Seq<char>,
    q: Request,
    head: Option<Seq<char>>,
)
    requires
        start_nodes(store, query, q.kind).len() > 0,
    ensures
        ({
            let language = start_nodes(store, query, q.kind)[0].language@;
            let found = crate::graph_json::ambiguous(store, query, q.kind);
            exists|o: JsonView|
                {
                    &&& graph_text(store, query, q, head) == #[trigger] json_text(o)
                    &&& member(o, "coverage"@) is Some
                    &&& member(member(o, "coverage"@)->0, "language"@) == Some(JsonView::Text(language))
                    &&& member(member(o, "coverage"@)->0, "semantic"@) == Some(
                        JsonView::Bool(
                            exists|i: int|
                                0 <= i < store.call_languages@.len() && (
                                #[trigger] store.call_languages@[i])@ == language,
                        ),
                    )
                    &&& store.meta_value("phase_b_commit"@) matches Some(c) ==> member(
                        member(o, "coverage"@)->0,
                        "phase_b_commit"@,
                    ) == Some(JsonView::Text(c))
                    &&& found.len() > 0 ==> member(o, "candidates"@) is Some && tells_symbols(
                        member(o, "candidates"@)->0,
                        found,
                    )
                    &&& q.budget > 0 ==> member(o, "token_budget"@) == Some(JsonView::Uint(q.budget))
                    &&& crate::notes::degraded_note(store) matches Some(n) ==> member(o, "signals"@) is Some
                        && tells_text(member(o, "signals"@)->0, n)
                    &&& crate::notes::head_note(store, head) matches Some(n) ==> member(
                        o,
                        "signals"@,
                    ) is Some && tells_text(member(o, "signals"@)->0, n)
                }
        }),
{
    lemma_names();
    let language = start_nodes(store, query, q.kind)[0].language@;
    let v = graph_fields(store, query, q, head);
    let w = walked(store, q, start_nodes(store, query, q.kind));
    let found = crate::graph_json::ambiguous(store, query, q.kind);
    let signals = crate::notes::note_signals(store, head);
    let o = object(v);
    assert(v[0].0 == "nodes"@);
    assert(v[1].0 == "edges"@);
    assert(v[2].0 == "coverage"@);
    let a = if found.len() > 0 {
        5int
    } else {
        3
    };
    if found.len() > 0 {
        assert(v[3].0 == "ambiguous"@);
        assert(v[4] == ("candidates"@, crate::graph_json::candidate_list(found)));
    }
    let b = if q.budget > 0 {
        a + 2
    } else {
        a
    };
    if q.budget > 0 {
        assert(v[a] == ("token_budget"@, JsonView::Uint(q.budget)));
        assert(v[a + 1].0 == "truncated_by_budget"@);
    }
    if signals.len() > 0 {
        assert(v[b] == ("signals"@, JsonView::List(crate::json::texts(signals))));
        assert(v.len() == b + 1);
        lemma_field(v, b);
    }
    lemma_field(v, 2);
    if found.len() > 0 {
        lemma_field(v, 4);
        lemma_tells_symbols(found);
    }
    if q.budget > 0 {
        lemma_field(v, a);
    }
    lemma_signals(store, head);
    lemma_coverage(store, language);
    assert(graph_text(store, query, q, head) == json_text(o));
}

proof fn lemma_signals(store: Store, head: Option<Seq<char>>)
    ensures
        ({
            let s = crate::notes::note_signals(store, head);
            let l = JsonView::List(crate::json::texts(s));
            &&& crate::notes::degraded_note(store) matches Some(n) ==> s.len() > 0 && tells_text(l, n)
            &&& crate::notes::head_note(store, head) matches Some(n) ==> s.len() > 0 && tells_text(l, n)
        }),
{
    let s = crate::notes::note_signals(store, head);
    let t = crate::json::texts(s);
    if let Some(n) = crate::notes::degraded_note(store) {
        assert(s[0] == n);
        assert(t[0] == JsonView::Text(n));
    }
    if let Some(n) = crate::notes::head_note(store, head) {
        assert(s[s.len() - 1] == n);
        assert(t[s.len() - 1] == JsonView::Text(n));
    }
}

proof fn lemma_coverage(store: Store, language: Seq<char>)
    ensures
        ({
            let c = object(crate::graph_json::coverage_fields(store, language));
            &&& member(c, "language"@) == Some(JsonView::Text(language))
            &&& member(c, "semantic"@) == Some(
                JsonView::Bool(
                    exists|i: int|
                        0 <= i < store.call_languages@.len() && (#[trigger] store.call_languages@[i])@
                            == language,
                ),
            )
            &&& store.meta_value("phase_b_commit"@) matches Some(t) ==> member(c, "phase_b_commit"@)
                == Some(JsonView::Text(t))
        }),
{
    reveal_strlit("language");
    reveal_strlit("semantic");
    reveal_strlit("phase_b_commit");
    assert("language"@.len() == 8 && "semantic"@.len() == 8 && "phase_b_commit"@.len() == 14);
    assert("language"@[0] == 'l' && "semantic"@[0] == 's');
    let v = crate::graph_json::coverage_fields(store, language);
    lemma_field(v, 0);
    lemma_field(v, 1);
    lemma_field(v, 2);
    let w = crate::text::views(store.call_languages@);
    let known = exists|i: int|
        0 <= i < store.call_languages@.len() && (#[trigger] store.call_languages@[i])@ == language;
    if known {
        let i = choose|i: int|
            0 <= i < store.call_languages@.len() && (#[trigger] store.call_languages@[i])@ == language;
        assert(w[i] == language);
    }
    if w.contains(language) {
        let i = choose|i: int| 0 <= i < w.len() && w[i] == language;
        assert(store.call_languages@[i]@ == language);
    }
}

/// A drawing over several repositories tells all merged nodes and edges, and every note.
pub proof fn law_merged_drawing_tells_all(m: crate::graph_json::MergeView, k: int)
    ensures
        ({
            let o = object(crate::graph_json::merge_fields(m));
            &&& member(o, "nodes"@) is Some && tells_nodes(member(o, "nodes"@)->0, m.nodes)
            &&& member(o, "edges"@) is Some && tells_edges(member(o, "edges"@)->0, m.edges)
            &&& 0 <= k < m.signals.len() ==> member(o, "signals"@) is Some && tells_text(
                member(o, "signals"@)->0,
                m.signals[k],
            )
        }),
{
    lemma_names();
    let v = crate::graph_json::merge_fields(m);
    lemma_tells(m.nodes, m.edges);
    assert(v[0] == ("nodes"@, crate::graph_json::node_list(m.nodes)));
    assert(v[1] == ("edges"@, crate::graph_json::edge_list(m.edges)));
    if m.signals.len() > 0 {
        assert(v[2] == ("signals"@, JsonView::List(crate::json::texts(m.signals))));
        lemma_field(v, 2);
        if 0 <= k < m.signals.len() {
            assert(crate::json::texts(m.signals)[k] == JsonView::Text(m.signals[k]));
        }
    }
    lemma_field(v, 0);
    lemma_field(v, 1);
}

/// Merging keeps the notes that were there and adds those of the repository.
pub proof fn law_merged_drawing_keeps_every_note(old: Seq<Seq<char>>, more: Seq<Seq<char>>)
    ensures
        forall|t: Seq<char>| #[trigger]
            crate::graph_json::with_texts(old, more).contains(t) <==> old.contains(t) || more.contains(t),
    decreases more.len(),
{
    if more.len() > 0 {
        let p = more.drop_last();
        law_merged_drawing_keeps_every_note(old, p);
        let m = crate::graph_json::with_texts(old, p);
        assert forall|t: Seq<char>| #[trigger]
            crate::graph_json::with_texts(old, more).contains(t) <==> old.contains(t) || more.contains(
                t,
            ) by {
            crate::store::lemma_push_contains(m, more.last(), t);
            crate::store::lemma_push_contains(p, more.last(), t);
            assert(more =~= p.push(more.last()));
            assert(m.contains(t) <==> old.contains(t) || p.contains(t));
        }
    }
}

} // verus!
