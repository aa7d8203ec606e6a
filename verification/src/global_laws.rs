//! What answers over several repositories, notes, lists and counts show.

use vstd::prelude::*;

use crate::global::{addressed, attributed, gathered, live, part_at, Repo};
use crate::lines::{has_line, holds};
use crate::store::{Node, Store};

verus! {

// ---------------------------------------------------------------- several repositories

pub(crate) proof fn lemma_live(repos: Seq<Repo>)
    ensures
        forall|i: int|
            0 <= i < repos.len() && (#[trigger] repos[i]).live ==> live(repos).contains(i),
        forall|k: int|
            0 <= k < live(repos).len() ==> 0 <= #[trigger] live(repos)[k] < repos.len()
                && repos[live(repos)[k]].live,
        forall|k: int, m: int|
            0 <= k < m < live(repos).len() ==> #[trigger] live(repos)[k] < #[trigger] live(repos)[m],
        live(repos).len() == repos.filter(|r: Repo| r.live).len(),
    decreases repos.len(),
{
    reveal(Seq::filter);
    if repos.len() > 0 {
        let p = repos.drop_last();
        lemma_live(p);
        let a = live(p);
        let b = live(repos);
        assert forall|i: int| 0 <= i < repos.len() && (#[trigger] repos[i]).live implies b.contains(i) by {
            crate::store::lemma_push_contains(a, repos.len() - 1, i);
            if i < p.len() {
                assert(p[i] == repos[i]);
            }
        }
        assert forall|k: int| 0 <= k < b.len() implies 0 <= #[trigger] b[k] < repos.len()
            && repos[b[k]].live by {
            if k < a.len() {
                assert(b[k] == a[k]);
                assert(p[a[k]] == repos[a[k]]);
            }
        }
        assert forall|k: int, m: int| 0 <= k < m < b.len() implies #[trigger] b[k] < #[trigger] b[m] by {
            assert(b[k] == a[k]);
            if m < a.len() {
                assert(b[m] == a[m]);
            }
        }
    }
}

proof fn lemma_nonempty(parts: Seq<Seq<char>>, k: int)
    requires
        0 <= k < parts.len(),
        parts[k].len() > 0,
    ensures
        crate::text::nonempty(parts).contains(parts[k]),
    decreases parts.len(),
{
    let p = parts.drop_last();
    crate::store::lemma_push_contains(crate::text::nonempty(p), parts.last(), parts[k]);
    if k < p.len() {
        lemma_nonempty(p, k);
        assert(p[k] == parts[k]);
    }
}

proof fn lemma_gathered_holds(
    repos: Seq<Repo>,
    target: Option<Seq<char>>,
    part: spec_fn(Repo, Store, bool) -> Seq<char>,
    k: int,
)
    requires
        0 <= k < addressed(repos, target).len(),
        part_at(repos, addressed(repos, target), k, part).len() > 0,
    ensures
        holds(gathered(repos, target, part), part_at(repos, addressed(repos, target), k, part)),
{
    let places = addressed(repos, target);
    let parts = Seq::new(places.len(), |k: int| part_at(repos, places, k, part));
    lemma_nonempty(parts, k);
    let kept = crate::text::nonempty(parts);
    let m = choose|m: int| 0 <= m < kept.len() && kept[m] == parts[k];
    crate::lines::lemma_join_holds(kept, "\n"@, m);
}

/// A request on all repositories holds the answer of every one whose database is there and opens.
pub proof fn law_every_repository_answers(
    repos: Seq<Repo>,
    part: spec_fn(Repo, Store, bool) -> Seq<char>,
    i: int,
    store: Store,
)
    requires
        0 <= i < repos.len(),
        repos[i].live,
        repos[i].store == Some(store),
        part(repos[i], store, repos.filter(|r: Repo| r.live).len() == 1).len() > 0,
    ensures
        holds(
            gathered(repos, None, part),
            part(repos[i], store, repos.filter(|r: Repo| r.live).len() == 1),
        ),
{
    lemma_live(repos);
    let places = live(repos);
    assert(places.contains(i));
    let k = choose|k: int| 0 <= k < places.len() && places[k] == i;
    lemma_gathered_holds(repos, None, part, k);
}

/// A request on one repository gives the answer of that one and nothing else.
pub proof fn law_named_repository_answers_alone(
    repos: Seq<Repo>,
    part: spec_fn(Repo, Store, bool) -> Seq<char>,
    i: int,
    store: Store,
)
    requires
        0 <= i < repos.len(),
        repos[i].live,
        repos[i].store == Some(store),
        crate::sanitize::arg_ok(repos[i].name@),
        forall|j: int| 0 <= j < i ==> (#[trigger] repos[j]).name@ != repos[i].name@,
    ensures
        gathered(repos, Some(repos[i].name@), part) == part(repos[i], store, true),
{
    let name = repos[i].name@;
    lemma_named_first(repos, i);
    let places = addressed(repos, Some(name));
    assert(places =~= seq![i]);
    let parts = Seq::new(places.len(), |k: int| part_at(repos, places, k, part));
    let x = part(repos[i], store, true);
    assert(parts =~= seq![x]);
    reveal_with_fuel(crate::text::nonempty, 3);
    assert(parts.drop_last() =~= Seq::<Seq<char>>::empty());
    if x.len() == 0 {
        assert(crate::text::nonempty(parts) =~= Seq::<Seq<char>>::empty());
        assert(x =~= Seq::<char>::empty());
    } else {
        assert(crate::text::nonempty(parts) =~= seq![x]);
    }
}

pub(crate) proof fn lemma_named_first(repos: Seq<Repo>, i: int)
    requires
        0 <= i < repos.len(),
        forall|j: int| 0 <= j < i ==> (#[trigger] repos[j]).name@ != repos[i].name@,
    ensures
        crate::global::named(repos, repos[i].name@) == Some(i),
    decreases repos.len(),
{
    let p = repos.drop_last();
    if i < p.len() {
        assert forall|j: int| 0 <= j < i implies (#[trigger] p[j]).name@ != p[i].name@ by {
            assert(p[j] == repos[j]);
        }
        lemma_named_first(p, i);
    } else {
        crate::global::lemma_named(p, repos[i].name@);
        if let Some(j) = crate::global::named(p, repos[i].name@) {
            assert(p[j] == repos[j]);
        }
    }
}

/// One of several answers has the name of its repository before each of its lines; the only answer is left as it is.
pub proof fn law_lines_carry_their_repository(name: Seq<char>, body: Seq<char>)
    ensures
        body.len() > 0 ==> forall|i: int|
            0 <= i < crate::split::lines(body).len() ==> has_line(
                attributed(name, body, false),
                "["@ + name + "] "@ + #[trigger] crate::split::lines(body)[i],
            ),
        attributed(name, body, true) == body,
        body.len() == 0 ==> attributed(name, body, false).len() == 0,
{
    let ls = crate::split::lines(body);
    let v = Seq::new(ls.len(), |i: int| crate::global::marked_line(name, ls[i]));
    if body.len() > 0 {
        assert forall|i: int| 0 <= i < ls.len() implies has_line(
            attributed(name, body, false),
            "["@ + name + "] "@ + #[trigger] ls[i],
        ) by {
            assert(v[i] == "["@ + name + "] "@ + ls[i]);
            crate::lines::lemma_join_has_line(v, i);
        }
    }
}

// ---------------------------------------------------------------- notes

/// Where the index is at a commit that the semantic pass has not reached, an answer says so.
pub proof fn law_unfinished_index_is_noted(
    store: Store,
    body: Seq<char>,
    head: Option<Seq<char>>,
    last: Seq<char>,
)
    requires
        store.meta_value("last_commit"@) == Some(last),
        last.len() > 0,
        store.meta_value("phase_b_commit"@) != Some(last),
    ensures
        holds(
            crate::notes::read_notes(store, body, head),
            "[note: call-graph index incomplete, Phase B has not caught up with the current commit; call edges may be missing and empty results are not authoritative. Run `travsr status` to check progress.]"@,
        ),
{
    lemma_notes_hold(store, body, head);
}

/// Where call edges were dropped since the semantic pass, an answer says so.
pub proof fn law_dropped_edges_are_noted(store: Store, body: Seq<char>, head: Option<Seq<char>>)
    requires
        store.meta_value("last_commit"@) == store.meta_value("phase_b_commit"@),
        store.meta_value("phase_b_dirty"@) == Some("1"@),
    ensures
        holds(
            crate::notes::read_notes(store, body, head),
            "[note: call-graph edges degraded, a background re-index dropped call edges since the last Phase B run; empty results are not authoritative. Run `travsr init` to rebuild.]"@,
        ),
{
    lemma_notes_hold(store, body, head);
}

proof fn lemma_notes_hold(store: Store, body: Seq<char>, head: Option<Seq<char>>)
    ensures
        crate::notes::degraded_note(store) matches Some(n) ==> holds(
            crate::notes::read_notes(store, body, head),
            n,
        ),
        crate::notes::head_note(store, head) matches Some(n) ==> holds(
            crate::notes::read_notes(store, body, head),
            n,
        ) && holds(crate::notes::head_notes(store, body, head), n),
{
    let one = crate::notes::with_note(body, crate::notes::degraded_note(store));
    let two = crate::notes::with_note(one, crate::notes::head_note(store, head));
    if let Some(n) = crate::notes::degraded_note(store) {
        crate::lines::lemma_holds_itself(body + "\n"@, n, Seq::empty());
        assert(holds(one, n));
        if let Some(m) = crate::notes::head_note(store, head) {
            crate::lines::lemma_holds_around(Seq::empty(), one, "\n"@ + m, n);
            assert(one + ("\n"@ + m) =~= one + "\n"@ + m);
            if one.len() == 0 {
                assert(n.len() == 0);
                crate::lines::lemma_holds_itself(Seq::empty(), n, m);
                assert(n + m =~= m);
            }
        }
    }
    if let Some(m) = crate::notes::head_note(store, head) {
        crate::lines::lemma_holds_itself(one + "\n"@, m, Seq::empty());
        crate::lines::lemma_holds_itself(body + "\n"@, m, Seq::empty());
    }
}

/// Two hashes that differ in a digit, whatever its case, denote different commits, and an answer names both.
pub proof fn law_other_checkout_is_noted(
    store: Store,
    body: Seq<char>,
    head: Seq<char>,
    stored: Seq<char>,
    i: int,
)
    requires
        store.meta_value("last_commit"@) == Some(stored),
        0 <= i < vstd::utf8::encode_utf8(head).len(),
        i < vstd::utf8::encode_utf8(stored).len(),
        crate::notes::lower_byte(vstd::utf8::encode_utf8(head)[i]) != crate::notes::lower_byte(
            vstd::utf8::encode_utf8(stored)[i],
        ),
    ensures
        holds(
            crate::notes::read_notes(store, body, Some(head)),
            "[note: index describes commit "@ + stored + " but your checkout is at "@ + head,
        ),
        holds(
            crate::notes::head_notes(store, body, Some(head)),
            "[note: index describes commit "@ + stored + " but your checkout is at "@ + head,
        ),
{
    crate::width::lemma_blen_ascii(head);
    crate::width::lemma_blen_ascii(stored);
    assert(head.len() > 0 && stored.len() > 0);
    assert(!crate::notes::same_abbreviation(head, stored));
    lemma_notes_hold(store, body, Some(head));
    let n = crate::notes::mismatch_text(head, stored);
    let x = "[note: index describes commit "@ + stored + " but your checkout is at "@ + head;
    let rest =
        "; results (including path:line) may not match your working tree. This is expected in a linked worktree; otherwise run `travsr init` or wait for the daemon to reconcile.]"@;
    assert(n == x + rest);
    crate::lines::lemma_holds_itself(Seq::empty(), x, rest);
    crate::lines::lemma_holds_within(crate::notes::read_notes(store, body, Some(head)), n, x);
    crate::lines::lemma_holds_within(crate::notes::head_notes(store, body, Some(head)), n, x);
}

// ---------------------------------------------------------------- search and paths

/// A symbol with its kind, file and line.
pub open spec fn at_place(n: Node) -> Seq<char> {
    n.signature@ + " ("@ + n.kind@ + "), "@ + n.path@ + (match n.line {
        Some(l) => ":"@ + crate::text::dec(l as nat),
        None => Seq::empty(),
    })
}

/// Every symbol that a search finds has a line, up to the fifty best, in the order in which they were found; where the
/// wanted language has none, those of all languages.
pub proof fn law_every_match_is_listed(
    store: Store,
    name: Seq<char>,
    lang: Option<Seq<char>>,
    exact: bool,
    hits: Seq<Node>,
)
    requires
        ({
            ||| store.fuzzy_hits(name, lang, exact) == Some(hits) && (hits.len() > 0 || lang is None)
            ||| store.fuzzy_hits(name, lang, exact) == Some(Seq::<Node>::empty()) && store.fuzzy_hits(
                name,
                None,
                exact,
            ) == Some(hits)
        }),
    ensures
        forall|i: int|
            0 <= i < hits.len() && i < 50 ==> has_line(
                crate::search::matches(store, name, lang, exact),
                at_place(#[trigger] hits[i]),
            ),
        exists|ls: Seq<Seq<char>>|
            crate::search::matches(store, name, lang, exact) == #[trigger] crate::text::join(ls, "\n"@)
                && ls.len() == (if hits.len() > 50 {
                50
            } else {
                hits.len()
            }) && forall|i: int| 0 <= i < ls.len() ==> #[trigger] ls[i] == at_place(hits[i]),
{
    assert(crate::search::found(store, name, lang, exact) == hits);
    let ls = crate::search::hit_lines(hits);
    assert forall|i: int| 0 <= i < ls.len() implies #[trigger] ls[i] == at_place(hits[i]) by {
        assert(ls[i] =~= at_place(hits[i]));
    }
    assert forall|i: int| 0 <= i < hits.len() && i < 50 implies has_line(
        crate::search::matches(store, name, lang, exact),
        at_place(#[trigger] hits[i]),
    ) by {
        assert(ls[i] == at_place(hits[i]));
        crate::lines::lemma_join_has_line(ls, i);
    }
    assert(crate::search::matches(store, name, lang, exact) == crate::text::join(ls, "\n"@));
}

proof fn lemma_first_allowed(nodes: Seq<Node>, denied: Seq<u64>, i: int)
    requires
        0 <= i < nodes.len(),
        !denied.contains(nodes[i].id),
        forall|j: int| 0 <= j < i ==> denied.contains((#[trigger] nodes[j]).id),
    ensures
        crate::exec_path::first_allowed(nodes, denied) == Some(nodes[i]),
    decreases nodes.len(),
{
    let p = nodes.drop_last();
    if i < p.len() {
        assert(p[i] == nodes[i]);
        assert forall|j: int| 0 <= j < i implies denied.contains((#[trigger] p[j]).id) by {
            assert(p[j] == nodes[j]);
        }
        lemma_first_allowed(p, denied, i);
    } else {
        assert forall|j: int| 0 <= j < p.len() implies denied.contains((#[trigger] p[j]).id) by {
            assert(p[j] == nodes[j]);
        }
        lemma_none_allowed(p, denied);
    }
}

proof fn lemma_none_allowed(nodes: Seq<Node>, denied: Seq<u64>)
    requires
        forall|j: int| 0 <= j < nodes.len() ==> denied.contains((#[trigger] nodes[j]).id),
    ensures
        crate::exec_path::first_allowed(nodes, denied) is None,
    decreases nodes.len(),
{
    if nodes.len() > 0 {
        let p = nodes.drop_last();
        assert forall|j: int| 0 <= j < p.len() implies denied.contains((#[trigger] p[j]).id) by {
            assert(p[j] == nodes[j]);
        }
        lemma_none_allowed(p, denied);
        assert(denied.contains(nodes[nodes.len() - 1].id));
    }
}

proof fn lemma_path_of(v: Seq<crate::store::PathAnswer>, i: int, nodes: Seq<Node>)
    requires
        0 <= i < v.len(),
        v[i].nodes matches Some(n) && n@ == nodes,
        forall|j: int|
            i < j < v.len() ==> !((#[trigger] v[j]).source == v[i].source && v[j].sink == v[i].sink),
    ensures
        crate::exec_path::path_of(v, v[i].source, v[i].sink) == Some(nodes),
    decreases v.len(),
{
    if i < v.len() - 1 {
        let p = v.drop_last();
        assert(!(v[v.len() - 1].source == v[i].source && v[v.len() - 1].sink == v[i].sink));
        assert forall|j: int| i < j < p.len() implies !((#[trigger] p[j]).source == p[i].source
            && p[j].sink == p[i].sink) by {
            assert(p[j] == v[j]);
        }
        lemma_path_of(p, i, nodes);
    }
}

/// A path that was found between the first two symbols that the caller may see, and that reaches the second, is told
/// node by node, in order.
pub proof fn law_every_step_of_a_path_is_listed(
    store: Store,
    source: Seq<char>,
    sink: Seq<char>,
    denied: Seq<u64>,
    diagnose: bool,
    xs: Seq<Node>,
    a: int,
    ys: Seq<Node>,
    b: int,
    i: int,
    nodes: Seq<Node>,
    k: int,
)
    requires
        store.name_hits(source) == Some(xs),
        0 <= a < xs.len() && !denied.contains(xs[a].id),
        forall|j: int| 0 <= j < a ==> denied.contains((#[trigger] xs[j]).id),
        store.name_hits(sink) == Some(ys),
        0 <= b < ys.len() && !denied.contains(ys[b].id),
        forall|j: int| 0 <= j < b ==> denied.contains((#[trigger] ys[j]).id),
        0 <= i < store.path_answers@.len(),
        store.path_answers@[i].source == xs[a].id && store.path_answers@[i].sink == ys[b].id,
        store.path_answers@[i].nodes matches Some(n) && n@ == nodes,
        forall|j: int|
            i < j < store.path_answers@.len() ==> !((#[trigger] store.path_answers@[j]).source
                == xs[a].id && store.path_answers@[j].sink == ys[b].id),
        0 <= k < nodes.len() && nodes[k].id == ys[b].id,
    ensures
        exists|ls: Seq<Seq<char>>|
            crate::exec_path::chain(store, source, sink, denied, diagnose) == #[trigger] crate::text::join(
                ls,
                "\n"@,
            ) && ls.len() == nodes.len() && forall|j: int|
                0 <= j < nodes.len() ==> #[trigger] ls[j] == nodes[j].signature@ + " ("@
                    + nodes[j].kind@ + "), "@ + nodes[j].path@,
{
    lemma_first_allowed(xs, denied, a);
    lemma_first_allowed(ys, denied, b);
    lemma_path_of(store.path_answers@, i, nodes);
    assert(crate::exec_path::reaches(nodes, ys[b].id));
    let ls = crate::exec_path::path_lines(nodes);
    assert(crate::exec_path::chain(store, source, sink, denied, diagnose) == crate::text::join(ls, "\n"@));
    assert forall|j: int| 0 <= j < nodes.len() implies #[trigger] ls[j] == nodes[j].signature@ + " ("@
        + nodes[j].kind@ + "), "@ + nodes[j].path@ by {}
}

// ---------------------------------------------------------------- counts and lists

/// The counts of a graph stand in lines of their own; one that is not known counts as zero.
pub proof fn law_counts_are_told(store: Store, n: nat, e: nat)
    requires
        store.node_total matches Some(x) ==> n == x,
        store.node_total is None ==> n == 0,
        store.edge_total matches Some(x) ==> e == x,
        store.edge_total is None ==> e == 0,
    ensures
        ("nodes: "@ + crate::text::dec(n) + "\nedges: "@ + crate::text::dec(e)
            + "\nschema_version: "@).is_prefix_of(crate::stats::graph_stats(store)),
{
    let p = "nodes: "@ + crate::text::dec(n) + "\nedges: "@ + crate::text::dec(e)
        + "\nschema_version: "@;
    let t = crate::stats::graph_stats(store);
    assert(t.subrange(0, p.len() as int) =~= p);
}

/// The totals of some repositories and of others are the totals of all of them.
pub proof fn law_totals_add_up(repos: Seq<Repo>, a: Seq<int>, b: Seq<int>)
    ensures
        crate::stats::totals(repos, a + b, (a + b).len() as int).0 == crate::stats::totals(
            repos,
            a,
            a.len() as int,
        ).0 + crate::stats::totals(repos, b, b.len() as int).0,
        crate::stats::totals(repos, a + b, (a + b).len() as int).1 == crate::stats::totals(
            repos,
            a,
            a.len() as int,
        ).1 + crate::stats::totals(repos, b, b.len() as int).1,
{
    lemma_totals(repos, a, b, b.len() as int);
}

proof fn lemma_totals(repos: Seq<Repo>, a: Seq<int>, b: Seq<int>, n: int)
    requires
        0 <= n <= b.len(),
    ensures
        crate::stats::totals(repos, a + b, a.len() + n).0 == crate::stats::totals(
            repos,
            a,
            a.len() as int,
        ).0 + crate::stats::totals(repos, b, n).0,
        crate::stats::totals(repos, a + b, a.len() + n).1 == crate::stats::totals(
            repos,
            a,
            a.len() as int,
        ).1 + crate::stats::totals(repos, b, n).1,
    decreases n,
{
    if n == 0 {
        lemma_totals_prefix(repos, a, b, a.len() as int);
    } else {
        lemma_totals(repos, a, b, n - 1);
        assert((a + b)[a.len() + n - 1] == b[n - 1]);
    }
}

proof fn lemma_totals_prefix(repos: Seq<Repo>, a: Seq<int>, b: Seq<int>, n: int)
    requires
        n <= a.len(),
    ensures
        crate::stats::totals(repos, a + b, n) == crate::stats::totals(repos, a, n),
    decreases n,
{
    if n > 0 {
        lemma_totals_prefix(repos, a, b, n - 1);
        assert((a + b)[n - 1] == a[n - 1]);
    }
}

/// Every registered repository has a line with its name, its path, and whether the path is there; in the order of the keys.
pub proof fn law_every_repository_is_registered_in_a_line(v: Seq<crate::registry::RegistryEntry>, i: int)
    requires
        0 <= i < v.len(),
    ensures
        has_line(
            crate::text::join(crate::registry::registry_lines(v), "\n"@),
            v[i].display@ + "\t"@ + v[i].path@ + (if v[i].exists {
                "\t1"@
            } else {
                "\t0"@
            }),
        ),
        crate::registry::registry_lines(v).len() == v.len(),
{
    let keys = crate::registry::entry_keys(v);
    crate::rank::lemma_order(keys);
    let p = crate::rank::order_of(keys);
    assert(p.contains(i));
    let k = choose|k: int| 0 <= k < p.len() && p[k] == i;
    let ls = crate::registry::registry_lines(v);
    crate::lines::lemma_join_has_line(ls, k);
}

/// Of two registered repositories the one with the smaller key comes first.
pub proof fn law_registry_is_in_order(v: Seq<crate::registry::RegistryEntry>)
    ensures
        forall|k: int, m: int|
            0 <= k < m < v.len() ==> !crate::order::before(
                (#[trigger] crate::rank::at(v, crate::rank::order_of(crate::registry::entry_keys(v)))[m]).key@,
                (#[trigger] crate::rank::at(v, crate::rank::order_of(crate::registry::entry_keys(v)))[k]).key@,
            ),
        crate::registry::registry_lines(v) =~= Seq::new(
            v.len(),
            |i: int|
                crate::registry::entry_line(
                    crate::rank::at(v, crate::rank::order_of(crate::registry::entry_keys(v)))[i],
                ),
        ),
{
    let keys = crate::registry::entry_keys(v);
    crate::rank::lemma_order(keys);
    let p = crate::rank::order_of(keys);
    let w = crate::rank::at(v, p);
    assert forall|k: int, m: int| 0 <= k < m < v.len() implies !crate::order::before(
        (#[trigger] w[m]).key@,
        (#[trigger] w[k]).key@,
    ) by {
        assert(crate::rank::ranks(keys, p[k], p[m]));
        let (x, y) = (v[p[k]].key@, v[p[m]].key@);
        crate::order::lemma_before_irreflexive(x);
        if crate::order::before(x, y) && crate::order::before(y, x) {
            crate::order::lemma_before_transitive(x, y, x);
        }
    }
}

/// A prune tells how many repositories went, and names each of them.
pub proof fn law_every_pruned_repository_is_named(names: Seq<Seq<char>>, i: int)
    requires
        0 <= i < names.len(),
    ensures
        has_line(crate::registry::pruned(names), names[i]),
        has_line(crate::registry::pruned(names), "pruned: "@ + crate::text::dec(names.len())),
{
    let ls = seq!["pruned: "@ + crate::text::dec(names.len())] + names;
    assert(ls[i + 1] == names[i]);
    crate::lines::lemma_join_has_line(ls, i + 1);
    crate::lines::lemma_join_has_line(ls, 0);
}

/// Every synonym has a line, and so has the count of every language.
pub proof fn law_every_pair_has_a_line(pairs: Seq<(String, String)>, counts: Seq<(String, u64)>)
    ensures
        forall|i: int|
            0 <= i < pairs.len() ==> has_line(
                crate::text::join(crate::registry::pair_lines(pairs), "\n"@),
                (#[trigger] pairs[i]).0@ + " => "@ + pairs[i].1@,
            ),
        forall|i: int|
            0 <= i < counts.len() ==> has_line(
                crate::text::join(crate::stats::language_lines(counts), "\n"@),
                (#[trigger] counts[i]).0@ + "\t"@ + crate::text::dec(counts[i].1 as nat),
            ),
{
    let a = crate::registry::pair_lines(pairs);
    assert forall|i: int| 0 <= i < pairs.len() implies has_line(
        crate::text::join(a, "\n"@),
        (#[trigger] pairs[i]).0@ + " => "@ + pairs[i].1@,
    ) by {
        assert(a[i] == pairs[i].0@ + " => "@ + pairs[i].1@);
        crate::lines::lemma_join_has_line(a, i);
    }
    let b = crate::stats::language_lines(counts);
    assert forall|i: int| 0 <= i < counts.len() implies has_line(
        crate::text::join(b, "\n"@),
        (#[trigger] counts[i]).0@ + "\t"@ + crate::text::dec(counts[i].1 as nat),
    ) by {
        assert(b[i] == counts[i].0@ + "\t"@ + crate::text::dec(counts[i].1 as nat));
        crate::lines::lemma_join_has_line(b, i);
    }
}

} // verus!
