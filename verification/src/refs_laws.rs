//! What an answer with the uses of a symbol shows.

use vstd::prelude::*;

use crate::lines::has_line;
use crate::refs::{references, resolved, without_headers};
use crate::store::{Edge, EdgeKind, Node, Site, Store};

verus! {

// ---------------------------------------------------------------- use sites

/// `:` and the line, where there is one.
pub open spec fn at_line(line: Option<u32>) -> Seq<char> {
    match line {
        Some(l) => ":"@ + crate::text::dec(l as nat),
        None => Seq::empty(),
    }
}

proof fn lemma_sites(sites: Seq<Site>, id: u64)
    ensures
        crate::store::sites_of(sites, id).len() == sites.filter(|s: Site| s.target == id).len(),
        forall|i: int|
            0 <= i < sites.len() && (#[trigger] sites[i]).target == id ==> crate::store::sites_of(
                sites,
                id,
            ).contains(sites[i]),
        forall|s: Site| #[trigger]
            crate::store::sites_of(sites, id).contains(s) ==> sites.contains(s) && s.target == id,
    decreases sites.len(),
{
    reveal(Seq::filter);
    if sites.len() > 0 {
        let p = sites.drop_last();
        let last = sites.last();
        lemma_sites(p, id);
        let rest = crate::store::sites_of(p, id);
        let all = crate::store::sites_of(sites, id);
        assert(sites =~= p.push(last));
        assert forall|i: int| 0 <= i < sites.len() && (#[trigger] sites[i]).target == id implies all.contains(
            sites[i],
        ) by {
            crate::store::lemma_push_contains(rest, last, sites[i]);
            if i < p.len() {
                assert(p[i] == sites[i]);
            }
        }
        assert forall|s: Site| #[trigger] all.contains(s) implies sites.contains(s) && s.target == id by {
            crate::store::lemma_push_contains(rest, last, s);
            crate::store::lemma_push_contains(p, last, s);
            if rest.contains(s) {
            }
        }
    }
}

/// The lines of an answer with use sites.
spec fn site_rows(n: Node, sites: Seq<Site>) -> Seq<Seq<char>> {
    seq![
        crate::refs::resolution(n),
        crate::text::dec(sites.len()) + " reference(s):"@,
    ] + Seq::new(sites.len(), |i: int| crate::refs::site_line(sites[i]))
}

/// Every recorded use of the symbol has a line with its file and line; the answer tells what the symbol resolved
/// to, and how many uses there are.
pub proof fn law_every_use_is_listed(store: Store, symbol: Seq<char>, path: Option<Seq<char>>, n: Node)
    requires
        without_headers(resolved(store, symbol, path)) == seq![n],
        0 < store.sites@.filter(|s: Site| s.target == n.id).len()
            <= 500,
    ensures
        forall|i: int|
            0 <= i < store.sites@.len() && (#[trigger] store.sites@[i]).target == n.id ==> has_line(
                references(store, symbol, path),
                store.sites@[i].path@ + ":"@ + crate::text::dec(store.sites@[i].line as nat),
            ),
        has_line(
            references(store, symbol, path),
            crate::text::dec(store.sites@.filter(|s: Site| s.target == n.id).len())
                + " reference(s):"@,
        ),
        has_line(
            references(store, symbol, path),
            "resolved: "@ + n.signature@ + " ("@ + n.kind@ + "), "@ + n.path@ + at_line(n.line),
        ),
        exists|ls: Seq<Seq<char>>|
            references(store, symbol, path) == #[trigger] crate::text::join(ls, "\n"@) && ls.len()
                == 2 + store.sites@.filter(|s: Site| s.target == n.id).len(),
{
    lemma_sites(store.sites@, n.id);
    let nodes = without_headers(resolved(store, symbol, path));
    assert(nodes[0] == n);
    let sites = store.uses(n.id);
    let rows = site_rows(n, sites);
    assert(crate::refs::listed(sites) == sites);
    let shown = crate::refs::listed(sites);
    assert(seq![
        crate::refs::resolution(n),
        crate::text::dec(sites.len()) + " reference(s):"@,
    ] + Seq::new(shown.len(), |i: int| crate::refs::site_line(shown[i])) =~= rows);
    assert(references(store, symbol, path) == crate::text::join(rows, "\n"@));
    assert forall|i: int| 0 <= i < store.sites@.len() && (#[trigger] store.sites@[i]).target == n.id implies has_line(
        references(store, symbol, path),
        store.sites@[i].path@ + ":"@ + crate::text::dec(store.sites@[i].line as nat),
    ) by {
        assert(sites.contains(store.sites@[i]));
        let k = choose|k: int| 0 <= k < sites.len() && sites[k] == store.sites@[i];
        assert(rows[k + 2] == crate::refs::site_line(sites[k]));
        crate::lines::lemma_join_has_line(rows, k + 2);
    }
    crate::lines::lemma_join_has_line(rows, 1);
    crate::lines::lemma_join_has_line(rows, 0);
    assert(rows[0] =~= "resolved: "@ + n.signature@ + " ("@ + n.kind@ + "), "@ + n.path@ + at_line(
        n.line,
    ));
}

/// Where there are more uses than are listed, the first ones are, and the answer tells that it is cut.
pub proof fn law_many_uses_are_counted(store: Store, symbol: Seq<char>, path: Option<Seq<char>>, n: Node)
    requires
        without_headers(resolved(store, symbol, path)) == seq![n],
        store.sites@.filter(|s: Site| s.target == n.id).len() > 500,
    ensures
        has_line(
            references(store, symbol, path),
            crate::text::dec(store.sites@.filter(|s: Site| s.target == n.id).len())
                + " reference(s):"@,
        ),
        has_line(
            references(store, symbol, path),
            "[truncated: showing "@ + crate::text::dec(500) + " of "@
                + crate::text::dec(store.sites@.filter(|s: Site| s.target == n.id).len())
                + " sites]"@,
        ),
        forall|i: int|
            0 <= i < 500 ==> has_line(
                references(store, symbol, path),
                (#[trigger] store.uses(n.id)[i]).path@ + ":"@ + crate::text::dec(
                    store.uses(n.id)[i].line as nat,
                ),
            ),
{
    lemma_sites(store.sites@, n.id);
    let nodes = without_headers(resolved(store, symbol, path));
    assert(nodes[0] == n);
    let sites = store.uses(n.id);
    let shown = crate::refs::listed(sites);
    let body = seq![
        crate::refs::resolution(n),
        crate::text::dec(sites.len()) + " reference(s):"@,
    ] + Seq::new(shown.len(), |i: int| crate::refs::site_line(shown[i]));
    let last = "[truncated: showing "@ + crate::text::dec(shown.len()) + " of "@ + crate::text::dec(
        sites.len(),
    ) + " sites]"@;
    let rows = body.push(last);
    assert(references(store, symbol, path) == crate::text::join(rows, "\n"@));
    assert(rows[1] == body[1]);
    crate::lines::lemma_join_has_line(rows, 1);
    crate::lines::lemma_join_has_line(rows, body.len() as int);
    assert forall|i: int| 0 <= i < 500 implies has_line(
        references(store, symbol, path),
        (#[trigger] sites[i]).path@ + ":"@ + crate::text::dec(sites[i].line as nat),
    ) by {
        assert(rows[i + 2] == body[i + 2]);
        assert(shown[i] == sites[i]);
        crate::lines::lemma_join_has_line(rows, i + 2);
    }
}

// ---------------------------------------------------------------- callers in place of uses

proof fn lemma_call_sources(edges: Seq<Edge>, id: u64)
    ensures
        forall|i: int|
            0 <= i < edges.len() && (#[trigger] edges[i]).dst == id && edges[i].kind == EdgeKind::RefCall
                ==> crate::refs::call_sources(crate::store::entering(edges, id)).contains(edges[i].src),
        forall|s: u64| #[trigger]
            crate::refs::call_sources(crate::store::entering(edges, id)).contains(s) ==> exists|i: int|
                0 <= i < edges.len() && (#[trigger] edges[i]).dst == id && edges[i].kind
                    == EdgeKind::RefCall && edges[i].src == s,
    decreases edges.len(),
{
    if edges.len() > 0 {
        let p = edges.drop_last();
        let e = edges.last();
        lemma_call_sources(p, id);
        let before = crate::store::entering(p, id);
        let rest = crate::refs::call_sources(before);
        let all = crate::refs::call_sources(crate::store::entering(edges, id));
        if e.dst == id {
            assert(before.push(e).drop_last() =~= before);
        }
        assert forall|i: int|
            0 <= i < edges.len() && (#[trigger] edges[i]).dst == id && edges[i].kind
                == EdgeKind::RefCall implies all.contains(edges[i].src) by {
            crate::store::lemma_push_contains(rest, e.src, edges[i].src);
            if i < p.len() {
                assert(p[i] == edges[i]);
            }
        }
        assert forall|s: u64| #[trigger] all.contains(s) implies exists|i: int|
            0 <= i < edges.len() && (#[trigger] edges[i]).dst == id && edges[i].kind
                == EdgeKind::RefCall && edges[i].src == s by {
            crate::store::lemma_push_contains(rest, e.src, s);
            if rest.contains(s) {
                let i = choose|i: int|
                    0 <= i < p.len() && (#[trigger] p[i]).dst == id && p[i].kind == EdgeKind::RefCall
                        && p[i].src == s;
                assert(edges[i] == p[i]);
            } else {
                assert(edges[edges.len() - 1].dst == id);
            }
        }
    }
}

proof fn lemma_definition_sites(store: Store, ids: Seq<u64>)
    ensures
        crate::refs::definition_sites(store, ids).len() <= ids.len(),
        forall|i: int|
            0 <= i < ids.len() ==> (store.node(#[trigger] ids[i]) matches Some(n)
                ==> crate::refs::definition_sites(store, ids).contains(n.path@ + at_line(n.line))),
    decreases ids.len(),
{
    if ids.len() > 0 {
        let p = ids.drop_last();
        lemma_definition_sites(store, p);
        let rest = crate::refs::definition_sites(store, p);
        let all = crate::refs::definition_sites(store, ids);
        assert forall|i: int| 0 <= i < ids.len() implies (store.node(#[trigger] ids[i]) matches Some(n)
            ==> all.contains(n.path@ + at_line(n.line))) by {
            if let Some(n) = store.node(ids[i]) {
                if let Some(m) = store.node(ids.last()) {
                    crate::store::lemma_push_contains(
                        rest,
                        m.path@ + crate::callers::line_suffix(m.line),
                        n.path@ + at_line(n.line),
                    );
                }
                if i < p.len() {
                    assert(p[i] == ids[i]);
                }
            }
        }
    }
}

/// Where no uses but calls are recorded, every caller has a line with the place of its definition.
pub proof fn law_callers_stand_in_for_uses(
    store: Store,
    symbol: Seq<char>,
    path: Option<Seq<char>>,
    n: Node,
    i: int,
    m: Node,
)
    requires
        without_headers(resolved(store, symbol, path)) == seq![n],
        store.sites@.filter(|s: Site| s.target == n.id).len() == 0,
        !store.unread_incoming@.contains(n.id),
        0 <= i < store.edges@.len(),
        store.edges@[i].dst == n.id,
        store.edges@[i].kind == EdgeKind::RefCall,
        store.node(store.edges@[i].src) == Some(m),
        crate::refs::call_sources(store.arriving(n.id)).len() <= 500,
    ensures
        has_line(references(store, symbol, path), m.path@ + at_line(m.line)),
{
    lemma_sites(store.sites@, n.id);
    let nodes = without_headers(resolved(store, symbol, path));
    assert(nodes[0] == n);
    let ids = crate::refs::call_sources(store.arriving(n.id));
    lemma_call_sources(store.edges@, n.id);
    assert(ids.contains(store.edges@[i].src));
    let j = choose|j: int| 0 <= j < ids.len() && ids[j] == store.edges@[i].src;
    lemma_definition_sites(store, ids);
    let places = crate::refs::definition_sites(store, ids);
    let x = m.path@ + at_line(m.line);
    assert(store.node(ids[j]) == Some(m));
    assert(places.contains(x));
    places.lemma_cardinality_of_set();
    crate::order::law_finite_set_is_sorted(places.to_set());
    let sites = crate::order::sorted_of(places.to_set());
    assert(sites.to_set().contains(x));
    let k = choose|k: int| 0 <= k < sites.len() && sites[k] == x;
    let rows = seq![
        crate::refs::resolution(n),
        crate::text::dec(sites.len())
            + " caller definition(s) (exact occurrence lines unavailable for this language, showing caller definitions):"@,
    ] + crate::refs::listed(sites);
    assert(references(store, symbol, path) == crate::text::join(rows, "\n"@));
    assert(rows[k + 2] == x);
    crate::lines::lemma_join_has_line(rows, k + 2);
}

// ---------------------------------------------------------------- which symbol

proof fn lemma_placed_keeps(v: Seq<Node>, n: Node, id: u64)
    requires
        crate::exec_path::reaches(v, id) || n.id == id,
    ensures
        crate::exec_path::reaches(crate::store::placed(v, n), id),
    decreases v.len(),
{
    let r = crate::store::placed(v, n);
    if v.len() == 0 {
        assert(r[0].id == id);
    } else if v.last().id < n.id {
        if n.id == id {
            assert(r[v.len() as int].id == id);
        } else {
            let i = choose|i: int| 0 <= i < v.len() && (#[trigger] v[i]).id == id;
            assert(r[i].id == id);
        }
    } else if v.last().id == n.id {
        if n.id == id {
            assert(r[v.len() - 1].id == id);
        }
    } else {
        let p = crate::store::placed(v.drop_last(), n);
        if v.last().id == id {
            assert(r[p.len() as int].id == id);
        } else {
            if n.id != id {
                let i = choose|i: int| 0 <= i < v.len() && (#[trigger] v[i]).id == id;
                assert(v.drop_last()[i].id == id);
            }
            lemma_placed_keeps(v.drop_last(), n, id);
            let i = choose|i: int| 0 <= i < p.len() && (#[trigger] p[i]).id == id;
            assert(r[i].id == id);
        }
    }
}

proof fn lemma_by_id_keeps(nodes: Seq<Node>, i: int)
    requires
        0 <= i < nodes.len(),
    ensures
        crate::exec_path::reaches(crate::store::by_id(nodes), nodes[i].id),
    decreases nodes.len(),
{
    let p = nodes.drop_last();
    if i < p.len() {
        lemma_by_id_keeps(p, i);
        assert(p[i] == nodes[i]);
    }
    lemma_placed_keeps(crate::store::by_id(p), nodes.last(), nodes[i].id);
}

/// A name resolves to every definition that is found for it: to those with that signature where any is recorded, else
/// to those whose signature or bare name it is; and a path keeps those in that file.
pub proof fn law_every_definition_of_a_name_is_found(
    store: Store,
    symbol: Seq<char>,
    path: Option<Seq<char>>,
    hits: Seq<Node>,
    i: int,
)
    requires
        0 <= i < hits.len(),
        path matches Some(p) ==> hits[i].path@ == p,
        ({
            ||| store.exact_hits(symbol, path) == hits
            ||| {
                &&& store.exact_hits(symbol, path).len() == 0
                &&& store.name_hits(symbol) == Some(hits)
                &&& hits[i].kind@ != "file"@
                &&& hits[i].kind@ != "import"@
                &&& hits[i].signature@ == symbol || crate::names::bare_name(hits[i].signature@) == symbol
            }
        }),
    ensures
        crate::exec_path::reaches(resolved(store, symbol, path), hits[i].id),
{
    let all = crate::refs::candidates(store, symbol, path);
    assert(all.contains(hits[i])) by {
        if store.exact_hits(symbol, path).len() > 0 {
            assert(all[i] == hits[i]);
        } else {
            let p = |n: Node| crate::refs::goes_by(n, symbol);
            crate::store::lemma_kept(hits, p);
            assert(hits.contains(hits[i]));
            assert(crate::refs::named_definitions(store, symbol) == crate::store::kept(hits, p));
            assert(crate::refs::named_definitions(store, symbol).contains(hits[i]));
        }
    }
    match path {
        Some(p) => {
            let q = |n: Node| crate::refs::at_path(n.path@, p);
            crate::store::lemma_kept(all, q);
            let kept = crate::store::kept(all, q);
            assert(kept.contains(hits[i]));
            let j = choose|j: int| 0 <= j < kept.len() && kept[j] == hits[i];
            lemma_by_id_keeps(kept, j);
            assert(resolved(store, symbol, path) == crate::store::by_id(kept));
        },
        None => {
            let j = choose|j: int| 0 <= j < all.len() && all[j] == hits[i];
            lemma_by_id_keeps(all, j);
        },
    }
}

} // verus!
