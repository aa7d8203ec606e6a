//! What the orientation map shows.

use vstd::prelude::*;

use crate::lines::holds;
use crate::regions::{dependents, holds_dependents, region_edges, region_of};
use crate::repo_map::{
    body, file_fits, frame, map_view, name_fits, repo_map, with_files, with_regions, Draft, Frame,
    MapView,
};
use crate::store::{Node, Store};

verus! {

// ---------------------------------------------------------------- symbols and components

/// A kind that counts as code.
pub open spec fn is_code(kind: Seq<char>) -> bool {
    &&& kind != "file"@
    &&& kind != "go-pkg"@
    &&& kind != "import"@
    &&& kind != "crate"@
    &&& kind != "package"@
    &&& kind != "doc-chunk"@
    &&& kind != "file-module"@
}

/// A named symbol of code in a file of the repository.
pub open spec fn counts(n: Node) -> bool {
    crate::regions::is_local(n.path@) && is_code(n.kind@) && n.signature@.len() > 0
}

proof fn lemma_symbols_filter(nodes: Seq<Node>, regions: Seq<Seq<char>>, r: Seq<char>)
    ensures
        crate::repo_map::residents(crate::repo_map::symbols(nodes), regions, r).len() == nodes.filter(
            |n: Node| counts(n) && region_of(n.path@, regions) == r,
        ).len(),
    decreases nodes.len(),
{
    reveal(Seq::filter);
    if nodes.len() > 0 {
        let p = nodes.drop_last();
        let n = nodes.last();
        lemma_symbols_filter(p, regions, r);
        let before = crate::repo_map::symbols(p);
        if counts(n) {
            assert(crate::repo_map::symbols(nodes) == before.push(n));
            assert(before.push(n).drop_last() =~= before);
        } else {
            assert(crate::repo_map::symbols(nodes) == before);
        }
    }
}

/// The volume of a component is the number of its named symbols of code.
pub proof fn law_volume_counts_symbols(store: Store, r: Seq<char>)
    ensures
        map_view(store).volume(r) == store.nodes@.filter(
            |n: Node| counts(n) && region_of(n.path@, map_view(store).regions) == r,
        ).len(),
{
    lemma_symbols_filter(store.nodes@, map_view(store).regions, r);
}

/// Every component that holds a symbol is one of the map, once, and nothing else is.
pub proof fn law_every_component_is_on_the_map(store: Store)
    ensures
        forall|i: int|
            0 <= i < store.nodes@.len() && counts(#[trigger] store.nodes@[i]) ==> map_view(
                store,
            ).ordered().contains(region_of(store.nodes@[i].path@, map_view(store).regions)),
        map_view(store).ordered().no_duplicates(),
{
    let m = map_view(store);
    let p = |n: Node| crate::repo_map::is_symbol(n);
    crate::store::lemma_kept(store.nodes@, p);
    assert(m.symbols == crate::store::kept(store.nodes@, p));
    let homes = crate::repo_map::homes(m.symbols, m.regions);
    homes.lemma_cardinality_of_set();
    crate::order::law_finite_set_is_sorted(homes.to_set());
    crate::order::lemma_ascending_distinct(m.known);
    crate::rank::lemma_order(m.keys());
    let o = crate::rank::order_of(m.keys());
    assert forall|i: int| 0 <= i < store.nodes@.len() && counts(#[trigger] store.nodes@[i]) implies m.ordered().contains(
        region_of(store.nodes@[i].path@, m.regions),
    ) by {
        let n = store.nodes@[i];
        let r = region_of(n.path@, m.regions);
        assert(store.nodes@.contains(n));
        assert(m.symbols.contains(n));
        let k = choose|k: int| 0 <= k < m.symbols.len() && m.symbols[k] == n;
        assert(homes[k] == r);
        assert(homes.to_set().contains(r));
        assert(m.known.to_set().contains(r));
        let j = choose|j: int| 0 <= j < m.known.len() && m.known[j] == r;
        assert(o.contains(j));
        let t = choose|t: int| 0 <= t < o.len() && o[t] == j;
        assert(m.ordered()[t] == r);
    }
    let all = m.ordered();
    assert forall|i: int, j: int| 0 <= i < all.len() && 0 <= j < all.len() && i != j implies all[i] != all[j] by {
        if i < j {
            assert(crate::rank::ranks(m.keys(), o[i], o[j]));
            crate::rank::lemma_ranks_strict(m.keys(), o[i], o[j]);
        } else {
            assert(crate::rank::ranks(m.keys(), o[j], o[i]));
            crate::rank::lemma_ranks_strict(m.keys(), o[j], o[i]);
        }
    }
}

/// More dependents come first, and with as many the larger volume; where no component depends on another, the larger volume.
pub proof fn law_components_are_ranked(m: MapView, i: int, j: int)
    requires
        0 <= i < j < m.ordered().len(),
    ensures
        m.edges.len() > 0 ==> m.dependents(m.ordered()[i]) >= m.dependents(m.ordered()[j]) && (
        m.dependents(m.ordered()[i]) == m.dependents(m.ordered()[j]) ==> m.volume(m.ordered()[i])
            >= m.volume(m.ordered()[j])),
        m.edges.len() == 0 ==> m.volume(m.ordered()[i]) >= m.volume(m.ordered()[j]),
{
    crate::rank::lemma_order(m.keys());
    let o = crate::rank::order_of(m.keys());
    assert(crate::rank::ranks(m.keys(), o[i], o[j]));
}

// ---------------------------------------------------------------- dependencies between components

/// The dependencies between components are those of their files, each once.
pub proof fn law_component_edges_are_those_of_files(
    pairs: Seq<(String, String)>,
    regions: Seq<Seq<char>>,
    known: Seq<Seq<char>>,
    a: Seq<char>,
    b: Seq<char>,
)
    ensures
        region_edges(pairs, regions, known).contains((a, b)) <==> a != b && known.contains(a)
            && known.contains(b) && exists|i: int|
            0 <= i < pairs.len() && crate::regions::is_local((#[trigger] pairs[i]).0@)
                && crate::regions::is_local(pairs[i].1@) && region_of(pairs[i].0@, regions) == a
                && region_of(pairs[i].1@, regions) == b,
    decreases pairs.len(),
{
    if pairs.len() > 0 {
        let p = pairs.drop_last();
        law_component_edges_are_those_of_files(p, regions, known, a, b);
        let rest = region_edges(p, regions, known);
        let last = (region_of(pairs.last().0@, regions), region_of(pairs.last().1@, regions));
        crate::store::lemma_push_contains(rest, last, (a, b));
        assert forall|i: int| 0 <= i < p.len() implies p[i] == pairs[i] by {}
        if region_edges(pairs, regions, known).contains((a, b)) {
            if rest.contains((a, b)) {
                let i = choose|i: int|
                    0 <= i < p.len() && crate::regions::is_local((#[trigger] p[i]).0@)
                        && crate::regions::is_local(p[i].1@) && region_of(p[i].0@, regions) == a
                        && region_of(p[i].1@, regions) == b;
                assert(crate::regions::is_local(pairs[i].0@));
            } else {
                assert(crate::regions::is_local(pairs[pairs.len() - 1].0@));
            }
        }
        if a != b && known.contains(a) && known.contains(b) && exists|i: int|
            0 <= i < pairs.len() && crate::regions::is_local((#[trigger] pairs[i]).0@)
                && crate::regions::is_local(pairs[i].1@) && region_of(pairs[i].0@, regions) == a
                && region_of(pairs[i].1@, regions) == b {
            let i = choose|i: int|
                0 <= i < pairs.len() && crate::regions::is_local((#[trigger] pairs[i]).0@)
                    && crate::regions::is_local(pairs[i].1@) && region_of(pairs[i].0@, regions) == a
                    && region_of(pairs[i].1@, regions) == b;
            if i < p.len() {
                assert(crate::regions::is_local(p[i].0@));
            }
        }
    }
}

/// A component depends on another where it has a dependency on it, or on one that depends on it; and only then.
pub proof fn law_dependents_are_reached_through_edges(
    edges: Seq<(Seq<char>, Seq<char>)>,
    r: Seq<char>,
    a: Seq<char>,
)
    requires
        a != r,
    ensures
        dependents(edges, r).contains(a) <==> exists|i: int|
            0 <= i < edges.len() && (#[trigger] edges[i]).0 == a && (edges[i].1 == r || dependents(
                edges,
                r,
            ).contains(edges[i].1)),
{
    let d = dependents(edges, r);
    if exists|i: int|
        0 <= i < edges.len() && (#[trigger] edges[i]).0 == a && (edges[i].1 == r || d.contains(
            edges[i].1,
        )) {
        let i = choose|i: int|
            0 <= i < edges.len() && (#[trigger] edges[i]).0 == a && (edges[i].1 == r || d.contains(
                edges[i].1,
            ));
        assert forall|s: Set<Seq<char>>| #[trigger] holds_dependents(edges, r, s) implies s.contains(a) by {
            assert(edges[i].1 == r || s.contains(edges[i].1));
        }
    }
    if d.contains(a) {
        // What has a dependency on `r` or a dependent, whether or not it is `r` itself.
        let s = Set::new(
            |x: Seq<char>|
                exists|i: int|
                    0 <= i < edges.len() && (#[trigger] edges[i]).0 == x && (edges[i].1 == r
                        || d.contains(edges[i].1)),
        );
        assert(holds_dependents(edges, r, s)) by {
            assert forall|i: int|
                0 <= i < edges.len() && (#[trigger] edges[i].1 == r || s.contains(edges[i].1)) implies s.contains(
                edges[i].0,
            ) by {
                if edges[i].1 != r {
                    let b = edges[i].1;
                    let j = choose|j: int|
                        0 <= j < edges.len() && (#[trigger] edges[j]).0 == b && (edges[j].1 == r
                            || d.contains(edges[j].1));
                    assert forall|t: Set<Seq<char>>| #[trigger]
                        holds_dependents(edges, r, t) implies t.contains(b) by {
                        assert(edges[j].1 == r || t.contains(edges[j].1));
                    }
                    assert(d.contains(b));
                }
                assert(edges[i].0 == edges[i].0);
            }
        }
        assert(s.contains(a));
    }
}

// ---------------------------------------------------------------- the lines of the map

/// The line of a component: its name, how many components depend on it, and its volume.
pub open spec fn component_line(m: MapView, r: Seq<char>) -> Seq<char> {
    if m.edges.len() == 0 {
        r + "  symbols: "@ + crate::text::dec(m.volume(r)) + "\n"@
    } else {
        r + "  dependents: "@ + crate::text::dec(m.dependents(r)) + "  symbols: "@ + crate::text::dec(
            m.volume(r),
        ) + "\n"@
    }
}

proof fn lemma_with_files(f: Frame, d: Draft, files: Seq<Seq<char>>, x: Seq<char>)
    requires
        holds(d.text, x),
    ensures
        holds(with_files(f, d, files).text, x),
        with_files(f, d, files).named == d.named,
    decreases files.len(),
{
    if files.len() > 0 && file_fits(f, d, files[0]) {
        crate::lines::lemma_holds_around(Seq::empty(), d.text, files[0], x);
        lemma_with_files(
            f,
            Draft { text: d.text + files[0], lines: d.lines + 1, named: d.named },
            files.drop_first(),
            x,
        );
    }
}

proof fn lemma_with_files_named(f: Frame, d: Draft, files: Seq<Seq<char>>)
    ensures
        with_files(f, d, files).named == d.named,
    decreases files.len(),
{
    if files.len() > 0 && file_fits(f, d, files[0]) {
        lemma_with_files_named(
            f,
            Draft { text: d.text + files[0], lines: d.lines + 1, named: d.named },
            files.drop_first(),
        );
    }
}

proof fn lemma_names_shown(m: MapView, f: Frame, d: Draft, i: int, j: int)
    requires
        0 <= i <= m.ordered().len(),
        d.named == i,
        0 <= j < with_regions(m, f, d, i).named,
        j < i ==> holds(d.text, component_line(m, m.ordered()[j])),
    ensures
        j < m.ordered().len(),
        holds(with_regions(m, f, d, i).text, component_line(m, m.ordered()[j])),
    decreases m.ordered().len() - i,
{
    let all = m.ordered();
    if i < all.len() && name_fits(f, d, m.name_line(all[i])) {
        let line = m.name_line(all[i]);
        let named = Draft { text: d.text + line, lines: d.lines + 1, named: d.named + 1 };
        assert(line == component_line(m, all[i]));
        let x = component_line(m, all[j]);
        if j < i {
            crate::lines::lemma_holds_around(Seq::empty(), d.text, line, x);
        } else if j == i {
            crate::lines::lemma_holds_itself(d.text, line, Seq::empty());
        }
        if i >= 6 {
            lemma_names_shown(m, f, named, i + 1, j);
        } else {
            lemma_with_files_named(f, named, m.file_lines(all[i]));
            if j <= i {
                lemma_with_files(f, named, m.file_lines(all[i]), x);
            }
            lemma_names_shown(m, f, with_files(f, named, m.file_lines(all[i])), i + 1, j);
        }
    }
}

/// The map names the first components by rank, each with its dependents and its volume; a last line counts those that had no
/// room.
pub proof fn law_map_names_the_first_components(store: Store, reserve: nat, j: int)
    requires
        !store.scan_failed,
        map_view(store).symbols.len() > 0,
        store.nodes@.len() > 0,
        0 <= j < body(map_view(store), reserve).named,
    ensures
        j < map_view(store).ordered().len(),
        holds(
            repo_map(store, reserve),
            component_line(map_view(store), map_view(store).ordered()[j]),
        ),
{
    let m = map_view(store);
    let d = body(m, reserve);
    lemma_names_shown(
        m,
        frame(m, reserve),
        Draft { text: Seq::empty(), lines: 0, named: 0 },
        0,
        j,
    );
    let foot = crate::repo_map::footer(m, d.named);
    crate::lines::lemma_holds_around(
        m.header(),
        d.text,
        foot,
        component_line(m, m.ordered()[j]),
    );
}

/// Components are named one after the other, up to the first whose name has no room.
pub proof fn law_map_stops_only_for_want_of_room(m: MapView, reserve: nat)
    ensures
        body(m, reserve).named <= m.ordered().len(),
        body(m, reserve).named < m.ordered().len() ==> !name_fits(
            frame(m, reserve),
            body(m, reserve),
            m.name_line(m.ordered()[body(m, reserve).named as int]),
        ),
{
    lemma_stops(
        m,
        frame(m, reserve),
        Draft { text: Seq::empty(), lines: 0, named: 0 },
        0,
    );
}

proof fn lemma_stops(m: MapView, f: Frame, d: Draft, i: int)
    requires
        0 <= i <= m.ordered().len(),
        d.named == i,
    ensures
        with_regions(m, f, d, i).named <= m.ordered().len(),
        with_regions(m, f, d, i).named < m.ordered().len() ==> !name_fits(
            f,
            with_regions(m, f, d, i),
            m.name_line(m.ordered()[with_regions(m, f, d, i).named as int]),
        ),
    decreases m.ordered().len() - i,
{
    let all = m.ordered();
    if i < all.len() && name_fits(f, d, m.name_line(all[i])) {
        let named = Draft {
            text: d.text + m.name_line(all[i]),
            lines: d.lines + 1,
            named: d.named + 1,
        };
        if i >= 6 {
            lemma_stops(m, f, named, i + 1);
        } else {
            lemma_with_files_named(f, named, m.file_lines(all[i]));
            lemma_stops(m, f, with_files(f, named, m.file_lines(all[i])), i + 1);
        }
    }
}

/// What still fits: text, header, the names to come at sixty-four bytes each, and what stands in front of every line take
/// no more than 3800 bytes.
pub proof fn law_room_is_3800_bytes(f: Frame, d: Draft, line: Seq<char>)
    requires
        d.named <= f.total,
    ensures
        name_fits(f, d, line) <==> f.header + crate::width::blen(d.text) + crate::width::blen(line) + (
        f.header_lines + d.lines + 2) * f.reserve <= 3800,
        file_fits(f, d, line) <==> f.header + crate::width::blen(d.text) + crate::width::blen(line) + (
        f.total - d.named) * (64 + f.reserve) + (f.header_lines + d.lines + 2) * f.reserve <= 3800,
{
    assert(0 * (64 + f.reserve) == 0) by (nonlinear_arith);
}

/// The files of a component are listed one after the other, up to the first that has no room.
pub proof fn law_files_are_listed_in_order(f: Frame, d: Draft, files: Seq<Seq<char>>)
    requires
        files.len() > 0,
    ensures
        file_fits(f, d, files[0]) ==> with_files(f, d, files) == with_files(
            f,
            Draft { text: d.text + files[0], lines: d.lines + 1, named: d.named },
            files.drop_first(),
        ) && holds(with_files(f, d, files).text, files[0]),
        !file_fits(f, d, files[0]) ==> with_files(f, d, files) == d,
{
    if file_fits(f, d, files[0]) {
        crate::lines::lemma_holds_itself(d.text, files[0], Seq::empty());
        lemma_with_files(
            f,
            Draft { text: d.text + files[0], lines: d.lines + 1, named: d.named },
            files.drop_first(),
            files[0],
        );
    }
}

/// A listed file is told with its path, the number of its symbols, and the first of their names; of a component the six files with
/// the most symbols.
pub proof fn law_file_lines_tell_their_symbols(m: MapView, r: Seq<char>, k: int)
    requires
        0 <= k < m.file_lines(r).len(),
    ensures
        m.file_lines(r).len() <= 6,
        ({
            let files = crate::repo_map::by_volume(m.symbols, m.files(r));
            let n = crate::repo_map::file_names(m.symbols, files[k]).len();
            &&& ("  "@ + files[k] + "  ["@ + crate::text::dec(n) + " symbol"@).is_prefix_of(
                m.file_lines(r)[k],
            )
            &&& k + 1 < files.len() ==> crate::repo_map::file_symbols(m.symbols, files[k]).len()
                >= crate::repo_map::file_symbols(m.symbols, files[k + 1]).len()
        }),
{
    let files = crate::repo_map::by_volume(m.symbols, m.files(r));
    let keys = crate::repo_map::volume_keys(m.symbols, m.files(r));
    crate::rank::lemma_order(keys);
    let o = crate::rank::order_of(keys);
    if k + 1 < files.len() {
        assert(crate::rank::ranks(keys, o[k], o[k + 1]));
    }
    let n = crate::repo_map::file_names(m.symbols, files[k]).len();
    let l = m.file_lines(r)[k];
    let h = "  "@ + files[k] + "  ["@ + crate::text::dec(n);
    let p = h + " symbol"@;
    reveal_strlit(" symbol");
    reveal_strlit(" symbol]  ");
    reveal_strlit(" symbols]  ");
    assert(" symbol]  "@.subrange(0, 7) =~= " symbol"@);
    assert(" symbols]  "@.subrange(0, 7) =~= " symbol"@);
    assert(l.subrange(0, p.len() as int) =~= p) by {
        let noun = if n == 1 {
            " symbol]  "@
        } else {
            " symbols]  "@
        };
        assert((h + noun).subrange(0, p.len() as int) =~= h + noun.subrange(0, 7));
        assert(l.subrange(0, (h + noun).len() as int) =~= h + noun);
        assert(l.subrange(0, p.len() as int) =~= (h + noun).subrange(0, p.len() as int));
    }
}

} // verus!
