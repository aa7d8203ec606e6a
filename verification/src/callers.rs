//! Who calls a symbol.

use vstd::prelude::*;

use crate::global::{attribute, collect_global, Repo};
use crate::names::simple_name;
use crate::notes::{append_read_notes, phase_b_pending};
use crate::sanitize::{is_valid_arg, sanitize_for_mcp};
use crate::store::{opt_view, Edge, EdgeKind, Node, Store};
use crate::text::{cat2, cat3, dec_u32, join_strings};

verus! {

/// The most call sites that are listed per caller.
pub const MAX_SITES_PER_CALLER: usize = 50;

/// `:` and the line, where there is one.
pub open spec fn line_suffix(line: Option<u32>) -> Seq<char> {
    match line {
        Some(l) => ":"@ + crate::text::dec(l as nat),
        None => Seq::empty(),
    }
}

/// `:` and the line, where there is one.
pub fn line_suffix_of(line: Option<u32>) -> (r: String)
    ensures
        r@ == line_suffix(line),
{
    match line {
        Some(l) => {
            let d = dec_u32(l);
            cat2(":", d.as_str())
        },
        None => String::new(),
    }
}

/// A node with its kind and file.
pub open spec fn place_of(n: Node) -> Seq<char> {
    n.signature@ + " ("@ + n.kind@ + "), "@ + n.path@
}

/// A node with its kind and file.
pub fn describe(n: &Node) -> (r: String)
    ensures
        r@ == place_of(*n),
{
    let mut s = cat3(n.signature.as_str(), " (", n.kind.as_str());
    s.append("), ");
    s.append(n.path.as_str());
    s
}

/// The mark of an edge that leads to a caller: a true call, or a structural parent.
pub open spec fn tag(kind: EdgeKind) -> Option<Seq<char>> {
    match kind {
        EdgeKind::RefCall => Some("[call] "@),
        EdgeKind::DefinesBinding => Some("[structural] "@),
        _ => None,
    }
}

/// The call sites that are listed for a caller: none where the checkout's place is unknown.
pub open spec fn shown_sites(store: Store, caller: u64, callee: Seq<char>) -> Seq<u32> {
    let all = store.call_lines(caller, callee);
    if crate::notes::filled(store.meta_value("repo_root"@)) is None {
        Seq::empty()
    } else if all.len() > MAX_SITES_PER_CALLER {
        all.take(MAX_SITES_PER_CALLER as int)
    } else {
        all
    }
}

/// One line per call site.
pub open spec fn site_lines(n: Node, sites: Seq<u32>) -> Seq<Seq<char>> {
    Seq::new(
        sites.len(),
        |i: int| "[call] "@ + place_of(n) + ":"@ + crate::text::dec(sites[i] as nat),
    )
}

/// The lines that one edge gives: for a true call its call sites, where any is known; else the
/// caller's definition.
pub open spec fn edge_lines(store: Store, e: Edge, callee: Seq<char>) -> Seq<Seq<char>> {
    match (tag(e.kind), store.node(e.src)) {
        (Some(t), Some(n)) => {
            let sites = shown_sites(store, n.id, callee);
            if e.kind == EdgeKind::RefCall && sites.len() > 0 {
                site_lines(n, sites)
            } else {
                seq![t + place_of(n) + line_suffix(n.line)]
            }
        },
        _ => Seq::empty(),
    }
}

/// The lines of all edges, in order.
pub open spec fn caller_lines(store: Store, edges: Seq<Edge>, callee: Seq<char>) -> Seq<Seq<char>>
    decreases edges.len(),
{
    if edges.len() == 0 {
        Seq::empty()
    } else {
        caller_lines(store, edges.drop_last(), callee) + edge_lines(store, edges.last(), callee)
    }
}

/// The callers of the best hit for a name.
pub open spec fn callers(store: Store, symbol: Seq<char>) -> Seq<char> {
    match store.name_hits(symbol) {
        Some(nodes) => if nodes.len() > 0 {
            crate::text::join(
                caller_lines(
                    store,
                    store.arriving(nodes[0].id),
                    crate::names::bare_name(nodes[0].signature@),
                ),
                "\n"@,
            )
        } else {
            Seq::empty()
        },
        None => Seq::empty(),
    }
}

fn has_root(store: &Store) -> (r: bool)
    ensures
        r == (crate::notes::filled(store.meta_value("repo_root"@)) is Some),
{
    match store.get_meta("repo_root") {
        Some(v) => !v.as_str().is_empty(),
        None => false,
    }
}

fn sites_to_show(store: &Store, caller: u64, callee: &str) -> (r: Vec<u32>)
    ensures
        r@ == shown_sites(*store, caller, callee@),
{
    if !has_root(store) {
        let r: Vec<u32> = Vec::new();
        assert(r@ =~= Seq::<u32>::empty());
        return r;
    }
    let mut all = store.call_site_lines(caller, callee);
    if all.len() > MAX_SITES_PER_CALLER {
        all.truncate(MAX_SITES_PER_CALLER);
        assert(all@ =~= store.call_lines(caller, callee@).take(MAX_SITES_PER_CALLER as int));
    }
    all
}

fn edge_lines_of(store: &Store, e: Edge, callee: &str) -> (r: Vec<String>)
    ensures
        crate::text::views(r@) == edge_lines(*store, e, callee@),
{
    let mut r: Vec<String> = Vec::new();
    assert(crate::text::views(r@) =~= Seq::<Seq<char>>::empty());
    let mark: &str = match e.kind {
        EdgeKind::RefCall => "[call] ",
        EdgeKind::DefinesBinding => "[structural] ",
        _ => return r,
    };
    let n: &Node = match store.get_node(e.src) {
        Some(n) => n,
        None => return r,
    };
    let place = describe(n);
    if e.kind == EdgeKind::RefCall {
        let sites = sites_to_show(store, n.id, callee);
        if sites.len() > 0 {
            let mut i: usize = 0;
            while i < sites.len()
                invariant
                    i <= sites@.len(),
                    place@ == place_of(*n),
                    r@.len() == i,
                    forall|j: int|
                        0 <= j < i ==> #[trigger] r@[j]@ == site_lines(*n, sites@)[j],
                decreases sites@.len() - i,
            {
                let mut s = cat3("[call] ", place.as_str(), ":");
                let d = dec_u32(sites[i]);
                s.append(d.as_str());
                r.push(s);
                i += 1;
            }
            assert(crate::text::views(r@) =~= site_lines(*n, sites@));
            return r;
        }
    }
    let loc = line_suffix_of(n.line);
    let s = cat3(mark, place.as_str(), loc.as_str());
    r.push(s);
    assert(crate::text::views(r@) =~= seq![s@]);
    r
}

/// The callers of a symbol, tagged by how they are known.
pub fn get_callers_raw(store: &Store, symbol: &str) -> (r: String)
    ensures
        r@ == callers(*store, symbol@),
{
    let nodes: Vec<Node> = match store.search_nodes_by_name(symbol) {
        Some(v) => v,
        None => return String::new(),
    };
    if nodes.len() == 0 {
        return String::new();
    }
    let edges = store.edges_to(nodes[0].id);
    let callee = simple_name(nodes[0].signature.as_str());
    let mut lines: Vec<String> = Vec::new();
    let mut i: usize = 0;
    assert(crate::text::views(lines@) =~= Seq::<Seq<char>>::empty());
    while i < edges.len()
        invariant
            i <= edges@.len(),
            crate::text::views(lines@) == caller_lines(*store, edges@.take(i as int), callee@),
        decreases edges@.len() - i,
    {
        assert(edges@.take(i + 1).drop_last() =~= edges@.take(i as int));
        let mut more = edge_lines_of(store, edges[i], callee.as_str());
        let ghost a = lines@;
        let ghost b = more@;
        lines.append(&mut more);
        assert(crate::text::views(a + b) =~= crate::text::views(a) + crate::text::views(b));
        i += 1;
    }
    assert(edges@.take(i as int) =~= edges@);
    join_strings(&lines, "\n")
}

/// The answer while the semantic pass is still owed.
pub open spec fn callers_pending() -> Seq<char> {
    "{\"status\":\"pending\",\"message\":\"Semantic call-edge index is building in the background. Call edges will be available in ~2 minutes. Run `travsr status` to check progress.\"}"@
}

/// The answer to a request for the callers of a symbol.
pub open spec fn callers_answer(store: Store, symbol: Seq<char>, head: Option<Seq<char>>) -> Seq<
    char,
> {
    if !crate::sanitize::arg_ok(symbol) {
        Seq::empty()
    } else if crate::notes::is_phase_b_pending(store) {
        callers_pending()
    } else {
        crate::notes::read_notes(store, crate::sanitize::scalar(callers(store, symbol)), head)
    }
}

/// All nodes with an edge to the symbol, true calls and structural parents apart. `head` is the
/// commit of the caller's checkout, where it is known.
pub fn get_callers(store: &Store, symbol: &str, head: Option<&str>) -> (r: String)
    ensures
        r@ == callers_answer(*store, symbol@, opt_view(head)),
{
    if !is_valid_arg(symbol) {
        return String::new();
    }
    if phase_b_pending(store) {
        return "{\"status\":\"pending\",\"message\":\"Semantic call-edge index is building in the background. Call edges will be available in ~2 minutes. Run `travsr status` to check progress.\"}".to_owned();
    }
    let raw = get_callers_raw(store, symbol);
    append_read_notes(store, sanitize_for_mcp(raw.as_str()), head)
}

/// The part of one repository in an answer over several.
pub open spec fn callers_part(repo: Repo, store: Store, single: bool, symbol: Seq<char>) -> Seq<
    char,
> {
    crate::global::attributed(
        repo.name@,
        crate::notes::read_notes(store, callers(store, symbol), repo.head_view()),
        single,
    )
}

/// What each repository gives.
pub open spec fn callers_parts(symbol: Seq<char>) -> spec_fn(Repo, Store, bool) -> Seq<char> {
    |r: Repo, s: Store, single: bool| callers_part(r, s, single, symbol)
}

/// The answer over the registered repositories.
pub open spec fn callers_global(
    repos: Seq<Repo>,
    symbol: Seq<char>,
    repo: Option<Seq<char>>,
) -> Seq<char> {
    if crate::sanitize::arg_ok(symbol) {
        crate::sanitize::scalar(
            crate::global::gathered(
                repos,
                repo,
                callers_parts(symbol),
            ),
        )
    } else {
        Seq::empty()
    }
}

/// The callers of a symbol in one named repository, or in all.
pub fn get_callers_global(repos: &Vec<Repo>, symbol: &str, repo: Option<&str>) -> (r: String)
    ensures
        r@ == callers_global(repos@, symbol@, opt_view(repo)),
{
    if !is_valid_arg(symbol) {
        return String::new();
    }
    let f = |x: &Repo, s: &Store, single: bool| -> (o: String)
        ensures
            o@ == callers_part(*x, *s, single, symbol@),
        {
            let raw = get_callers_raw(s, symbol);
            attribute(x.name.as_str(), append_read_notes(s, raw, x.head_ref()), single)
        };
    let raw = collect_global(
        repos,
        repo,
        f,
        Ghost(callers_parts(symbol@)),
    );
    sanitize_for_mcp(raw.as_str())
}

// ---------------------------------------------------------------- laws

/// A call of the symbol, or the definition that holds it.
pub open spec fn is_use(e: Edge, id: u64) -> bool {
    e.dst == id && (e.kind == EdgeKind::RefCall || e.kind == EdgeKind::DefinesBinding)
}

/// The node is in the graph.
pub open spec fn is_known(store: Store, id: u64) -> bool {
    exists|j: int| 0 <= j < store.nodes@.len() && (#[trigger] store.nodes@[j]).id == id
}

/// The line names the source of the edge: how it is known, then signature, kind and file.
pub open spec fn names_source(store: Store, e: Edge, l: Seq<char>) -> bool {
    exists|j: int|
        {
            &&& 0 <= j < store.nodes@.len()
            &&& (#[trigger] store.nodes@[j]).id == e.src
            &&& ((if e.kind == EdgeKind::RefCall {
                "[call] "@
            } else {
                "[structural] "@
            }) + store.nodes@[j].signature@ + " ("@ + store.nodes@[j].kind@ + "), "@
                + store.nodes@[j].path@).is_prefix_of(l)
        }
}

proof fn lemma_edge_lines(store: Store, e: Edge, callee: Seq<char>)
    ensures
        (e.kind == EdgeKind::RefCall || e.kind == EdgeKind::DefinesBinding) && is_known(store, e.src)
            ==> edge_lines(store, e, callee).len() >= 1,
        edge_lines(store, e, callee).len() > 0 ==> (e.kind == EdgeKind::RefCall || e.kind
            == EdgeKind::DefinesBinding) && is_known(store, e.src),
        forall|k: int|
            0 <= k < edge_lines(store, e, callee).len() ==> names_source(
                store,
                e,
                #[trigger] edge_lines(store, e, callee)[k],
            ),
{
    crate::store::lemma_find_node(store.nodes@, e.src);
    let ls = edge_lines(store, e, callee);
    if let Some(n) = store.node(e.src) {
        let j = choose|j: int| 0 <= j < store.nodes@.len() && store.nodes@[j] == n;
        assert(store.nodes@[j].id == e.src);
        assert forall|k: int| 0 <= k < ls.len() implies names_source(store, e, #[trigger] ls[k]) by {
            let head = (if e.kind == EdgeKind::RefCall {
                "[call] "@
            } else {
                "[structural] "@
            }) + n.signature@ + " ("@ + n.kind@ + "), "@ + n.path@;
            assert(tag(e.kind)->0 + place_of(n) =~= head);
            assert("[call] "@ + place_of(n) =~= "[call] "@ + n.signature@ + " ("@ + n.kind@ + "), "@
                + n.path@);
            assert(ls[k].subrange(0, head.len() as int) =~= head);
            assert(head.is_prefix_of(ls[k]));
        }
    }
}

/// An edge that is listed, whatever the other edges are.
spec fn is_listed(store: Store, id: u64, e: Edge) -> bool {
    is_use(e, id) && is_known(store, e.src)
}

/// The edges into a node, among the first edges, with their lines.
proof fn lemma_caller_lines_step(store: Store, edges: Seq<Edge>, id: u64, callee: Seq<char>)
    requires
        edges.len() > 0,
    ensures
        caller_lines(store, crate::store::entering(edges, id), callee) == caller_lines(
            store,
            crate::store::entering(edges.drop_last(), id),
            callee,
        ) + (if edges.last().dst == id {
            edge_lines(store, edges.last(), callee)
        } else {
            Seq::empty()
        }),
{
    let before = crate::store::entering(edges.drop_last(), id);
    if edges.last().dst == id {
        assert(before.push(edges.last()).drop_last() =~= before);
    } else {
        let ps = caller_lines(store, before, callee);
        assert(ps + Seq::<Seq<char>>::empty() =~= ps);
    }
}

proof fn lemma_edge_has_line(store: Store, edges: Seq<Edge>, id: u64, callee: Seq<char>, i: int)
    requires
        0 <= i < edges.len(),
        is_listed(store, id, edges[i]),
    ensures
        exists|k: int|
            0 <= k < caller_lines(store, crate::store::entering(edges, id), callee).len()
                && names_source(
                store,
                edges[i],
                #[trigger] caller_lines(store, crate::store::entering(edges, id), callee)[k],
            ),
    decreases edges.len(),
{
    let p = edges.drop_last();
    let ls = caller_lines(store, crate::store::entering(edges, id), callee);
    let ps = caller_lines(store, crate::store::entering(p, id), callee);
    lemma_caller_lines_step(store, edges, id, callee);
    if i < p.len() {
        lemma_edge_has_line(store, p, id, callee, i);
        let k = choose|k: int| 0 <= k < ps.len() && names_source(store, p[i], #[trigger] ps[k]);
        assert(ls[k] == ps[k]);
    } else {
        lemma_edge_lines(store, edges.last(), callee);
        let own = edge_lines(store, edges.last(), callee);
        assert(ls[ps.len() as int] == own[0]);
    }
}

proof fn lemma_line_has_edge(store: Store, edges: Seq<Edge>, id: u64, callee: Seq<char>, k: int)
    requires
        0 <= k < caller_lines(store, crate::store::entering(edges, id), callee).len(),
    ensures
        exists|i: int|
            0 <= i < edges.len() && is_use(#[trigger] edges[i], id) && names_source(
                store,
                edges[i],
                caller_lines(store, crate::store::entering(edges, id), callee)[k],
            ),
    decreases edges.len(),
{
    if edges.len() > 0 {
        let p = edges.drop_last();
        let ls = caller_lines(store, crate::store::entering(edges, id), callee);
        let ps = caller_lines(store, crate::store::entering(p, id), callee);
        lemma_caller_lines_step(store, edges, id, callee);
        if k < ps.len() {
            assert(ls[k] == ps[k]);
            lemma_line_has_edge(store, p, id, callee, k);
            let i = choose|i: int|
                0 <= i < p.len() && is_use(#[trigger] p[i], id) && names_source(store, p[i], ps[k]);
            assert(edges[i] == p[i]);
        } else {
            lemma_edge_lines(store, edges.last(), callee);
            let own = edge_lines(store, edges.last(), callee);
            assert(ls[k] == own[k - ps.len()]);
            assert(is_use(edges[edges.len() - 1], id));
        }
    }
}

proof fn lemma_lines_counted(store: Store, edges: Seq<Edge>, id: u64, callee: Seq<char>)
    ensures
        caller_lines(store, crate::store::entering(edges, id), callee).len() >= edges.filter(
            |e: Edge| is_use(e, id) && is_known(store, e.src),
        ).len(),
    decreases edges.len(),
{
    reveal(Seq::filter);
    if edges.len() > 0 {
        lemma_lines_counted(store, edges.drop_last(), id, callee);
        lemma_caller_lines_step(store, edges, id, callee);
        lemma_edge_lines(store, edges.last(), callee);
    }
}

/// Every call of the symbol, and every definition that holds it, has a line that names its source, and
/// there are at least as many lines as such edges; and no line names anything else.
pub proof fn law_every_caller_is_listed(store: Store, symbol: Seq<char>, hits: Seq<Node>)
    requires
        store.name_hits(symbol) == Some(hits),
        hits.len() > 0,
        !store.unread_incoming@.contains(hits[0].id),
    ensures
        forall|i: int|
            0 <= i < store.edges@.len() && is_use(#[trigger] store.edges@[i], hits[0].id) && is_known(
                store,
                store.edges@[i].src,
            ) ==> exists|l: Seq<char>|
                crate::lines::has_line(callers(store, symbol), l) && #[trigger] names_source(
                    store,
                    store.edges@[i],
                    l,
                ),
        exists|ls: Seq<Seq<char>>|
            {
                &&& callers(store, symbol) == #[trigger] crate::text::join(ls, "\n"@)
                &&& ls.len() >= store.edges@.filter(
                    |e: Edge| is_use(e, hits[0].id) && is_known(store, e.src),
                ).len()
                &&& forall|k: int|
                    0 <= k < ls.len() ==> exists|i: int|
                        0 <= i < store.edges@.len() && is_use(#[trigger] store.edges@[i], hits[0].id)
                            && names_source(store, store.edges@[i], #[trigger] ls[k])
            },
{
    let id = hits[0].id;
    let callee = crate::names::bare_name(hits[0].signature@);
    let ls = caller_lines(store, crate::store::entering(store.edges@, id), callee);
    lemma_lines_counted(store, store.edges@, id, callee);
    assert(callers(store, symbol) == crate::text::join(ls, "\n"@));
    assert forall|i: int|
        0 <= i < store.edges@.len() && is_use(#[trigger] store.edges@[i], id) && is_known(
            store,
            store.edges@[i].src,
        ) implies exists|l: Seq<char>|
        crate::lines::has_line(callers(store, symbol), l) && #[trigger] names_source(
            store,
            store.edges@[i],
            l,
        ) by {
        lemma_edge_has_line(store, store.edges@, id, callee, i);
        let k = choose|k: int|
            0 <= k < ls.len() && names_source(store, store.edges@[i], #[trigger] ls[k]);
        crate::lines::lemma_join_has_line(ls, k);
    }
    assert forall|k: int| 0 <= k < ls.len() implies exists|i: int|
        0 <= i < store.edges@.len() && is_use(#[trigger] store.edges@[i], id) && names_source(
            store,
            store.edges@[i],
            #[trigger] ls[k],
        ) by {
        lemma_line_has_edge(store, store.edges@, id, callee, k);
    }
}

/// The lines of some edges and then of others are the lines of all of them.
pub proof fn law_callers_add_up(store: Store, a: Seq<Edge>, b: Seq<Edge>, callee: Seq<char>)
    ensures
        caller_lines(store, a + b, callee) == caller_lines(store, a, callee) + caller_lines(
            store,
            b,
            callee,
        ),
    decreases b.len(),
{
    if b.len() == 0 {
        assert(a + b =~= a);
        assert(caller_lines(store, a, callee) + Seq::<Seq<char>>::empty() =~= caller_lines(
            store,
            a,
            callee,
        ));
    } else {
        assert((a + b).drop_last() =~= a + b.drop_last());
        law_callers_add_up(store, a, b.drop_last(), callee);
        assert(caller_lines(store, a + b, callee) =~= caller_lines(store, a, callee)
            + caller_lines(store, b, callee));
    }
}

proof fn lemma_edge_lines_listed(
    store: Store,
    edges: Seq<Edge>,
    id: u64,
    callee: Seq<char>,
    i: int,
    l: Seq<char>,
)
    requires
        0 <= i < edges.len(),
        edges[i].dst == id,
        edge_lines(store, edges[i], callee).contains(l),
    ensures
        caller_lines(store, crate::store::entering(edges, id), callee).contains(l),
    decreases edges.len(),
{
    let p = edges.drop_last();
    let ps = caller_lines(store, crate::store::entering(p, id), callee);
    lemma_caller_lines_step(store, edges, id, callee);
    let own = if edges.last().dst == id {
        edge_lines(store, edges.last(), callee)
    } else {
        Seq::empty()
    };
    crate::graph_laws::lemma_concat_contains(ps, own, l);
    if i < p.len() {
        assert(p[i] == edges[i]);
        lemma_edge_lines_listed(store, p, id, callee, i, l);
    }
}

/// Every place at which a caller names the symbol has a line of its own, up to fifty for one caller, where the checkout is known;
/// a caller without such places, and a structural parent, has one line with the place of its definition.
pub proof fn law_every_call_site_is_listed(
    store: Store,
    symbol: Seq<char>,
    hits: Seq<Node>,
    i: int,
    n: Node,
)
    requires
        store.name_hits(symbol) == Some(hits),
        hits.len() > 0,
        !store.unread_incoming@.contains(hits[0].id),
        0 <= i < store.edges@.len(),
        store.edges@[i].dst == hits[0].id,
        store.node(store.edges@[i].src) == Some(n),
    ensures
        ({
            let text = callers(store, symbol);
            let sites = store.call_lines(n.id, crate::names::bare_name(hits[0].signature@));
            let place = n.signature@ + " ("@ + n.kind@ + "), "@ + n.path@;
            let rooted = store.meta_value("repo_root"@) matches Some(r) && r.len() > 0;
            let defined = place + match n.line {
                Some(l) => ":"@ + crate::text::dec(l as nat),
                None => Seq::empty(),
            };
            &&& store.edges@[i].kind == EdgeKind::RefCall && rooted ==> forall|k: int|
                0 <= k < sites.len() && k < 50 ==> crate::lines::has_line(
                    text,
                    "[call] "@ + place + ":"@ + crate::text::dec(#[trigger] sites[k] as nat),
                )
            &&& store.edges@[i].kind == EdgeKind::RefCall && (!rooted || sites.len() == 0)
                ==> crate::lines::has_line(text, "[call] "@ + defined)
            &&& store.edges@[i].kind == EdgeKind::DefinesBinding ==> crate::lines::has_line(
                text,
                "[structural] "@ + defined,
            )
        }),
{
    let e = store.edges@[i];
    let callee = crate::names::bare_name(hits[0].signature@);
    let id = hits[0].id;
    let ls = caller_lines(store, crate::store::entering(store.edges@, id), callee);
    let text = callers(store, symbol);
    assert(text == crate::text::join(ls, "\n"@));
    crate::store::lemma_find_node(store.nodes@, e.src);
    let sites = store.call_lines(n.id, callee);
    let place = n.signature@ + " ("@ + n.kind@ + "), "@ + n.path@;
    let rooted = store.meta_value("repo_root"@) matches Some(r) && r.len() > 0;
    let own = edge_lines(store, e, callee);
    let defined = place + match n.line {
        Some(l) => ":"@ + crate::text::dec(l as nat),
        None => Seq::empty(),
    };
    if e.kind == EdgeKind::RefCall && rooted {
        assert forall|k: int| 0 <= k < sites.len() && k < 50 implies crate::lines::has_line(
            text,
            "[call] "@ + place + ":"@ + crate::text::dec(#[trigger] sites[k] as nat),
        ) by {
            let shown = shown_sites(store, n.id, callee);
            assert(shown[k] == sites[k]);
            assert(own[k] == "[call] "@ + place + ":"@ + crate::text::dec(sites[k] as nat));
            lemma_edge_lines_listed(store, store.edges@, id, callee, i, own[k]);
            let j = choose|j: int| 0 <= j < ls.len() && ls[j] == own[k];
            crate::lines::lemma_join_has_line(ls, j);
        }
    }
    if e.kind == EdgeKind::RefCall && (!rooted || sites.len() == 0) || e.kind
        == EdgeKind::DefinesBinding {
        let mark = if e.kind == EdgeKind::RefCall {
            "[call] "@
        } else {
            "[structural] "@
        };
        assert(own.len() == 1);
        assert(own[0] =~= mark + defined);
        lemma_edge_lines_listed(store, store.edges@, id, callee, i, own[0]);
        let j = choose|j: int| 0 <= j < ls.len() && ls[j] == own[0];
        crate::lines::lemma_join_has_line(ls, j);
    }
}

} // verus!
