//! What an overview says of the files and their dependencies.

use vstd::prelude::*;

use crate::global::Repo;
use crate::overview::{
    all_regions, components, drill_target, drilled, files_among, has_link, has_tile, held_regions,
    link_key, local_paths, merged, prefix_files, regions_of, shown, times, with_tiles, TileView,
};
use crate::regions::{is_local, region_of};
use crate::store::{Node, Store};

verus! {

// ---------------------------------------------------------------- components

/// A file of the repository.
pub open spec fn is_file(n: Node) -> bool {
    n.kind@ == "file"@ && is_local(n.path@)
}

proof fn lemma_times(nodes: Seq<Node>, regions: Seq<Seq<char>>, x: Seq<char>)
    ensures
        times(regions_of(local_paths(files_among(nodes)), regions), x) == nodes.filter(
            |n: Node| is_file(n) && region_of(n.path@, regions) == x,
        ).len(),
    decreases nodes.len(),
{
    reveal(Seq::filter);
    if nodes.len() > 0 {
        let p = nodes.drop_last();
        let n = nodes.last();
        lemma_times(p, regions, x);
        let before = files_among(p);
        let all = files_among(nodes);
        let (a, b) = (
            regions_of(local_paths(before), regions),
            regions_of(local_paths(all), regions),
        );
        if n.kind@ == "file"@ {
            assert(all == before.push(n));
            assert(before.push(n).drop_last() =~= before);
            if is_local(n.path@) {
                assert(local_paths(all) == local_paths(before).push(n.path@));
                assert(b.drop_last() =~= a);
                assert(b.last() == region_of(n.path@, regions));
            } else {
                assert(b == a);
            }
        } else {
            assert(all == before);
        }
    } else {
        assert(files_among(nodes) =~= Seq::<Node>::empty());
        assert(regions_of(local_paths(files_among(nodes)), regions) =~= Seq::<Seq<char>>::empty());
    }
}

proof fn lemma_local_paths(nodes: Seq<Node>, i: int)
    requires
        0 <= i < nodes.len(),
        is_file(nodes[i]),
    ensures
        local_paths(files_among(nodes)).contains(nodes[i].path@),
    decreases nodes.len(),
{
    let p = nodes.drop_last();
    let before = files_among(p);
    if nodes.last().kind@ == "file"@ {
        assert(before.push(nodes.last()).drop_last() =~= before);
    }
    crate::store::lemma_push_contains(local_paths(before), nodes.last().path@, nodes[i].path@);
    if i < p.len() {
        assert(p[i] == nodes[i]);
        lemma_local_paths(p, i);
    }
}

/// Every component is a tile with the number of its files, and of the components that depend on it.
pub proof fn law_tiles_count_their_files(store: Store, i: int)
    requires
        0 <= i < components(store).tiles.len(),
    ensures
        components(store).tiles[i] matches TileView::Region { name, files, dependents } && files
            == store.nodes@.filter(
            |n: Node| is_file(n) && region_of(n.path@, all_regions(store)) == name,
        ).len() && dependents == crate::regions::dependents(
            crate::regions::region_edges(store.dep_pairs@, all_regions(store), held_regions(store)),
            name,
        ).len(),
{
    let name = held_regions(store)[i];
    lemma_times(store.nodes@, all_regions(store), name);
}

/// Every file of the repository is in the component of a tile, and no two tiles are of one component.
pub proof fn law_every_file_is_in_a_tile(store: Store, i: int)
    requires
        0 <= i < store.nodes@.len(),
        is_file(store.nodes@[i]),
    ensures
        has_tile(
            components(store).tiles,
            "pkg:"@ + region_of(store.nodes@[i].path@, all_regions(store)),
        ),
        held_regions(store).no_duplicates(),
{
    lemma_local_paths(store.nodes@, i);
    let paths = local_paths(files_among(store.nodes@));
    let homes = regions_of(paths, all_regions(store));
    let k = choose|k: int| 0 <= k < paths.len() && paths[k] == store.nodes@[i].path@;
    let r = region_of(store.nodes@[i].path@, all_regions(store));
    assert(homes[k] == r);
    homes.lemma_cardinality_of_set();
    crate::order::law_finite_set_is_sorted(homes.to_set());
    let known = held_regions(store);
    crate::order::lemma_ascending_distinct(known);
    assert(homes.to_set().contains(r));
    assert(known.to_set().contains(r));
    let j = choose|j: int| 0 <= j < known.len() && known[j] == r;
    assert(components(store).tiles[j].id() == "pkg:"@ + r);
}

// ---------------------------------------------------------------- one directory

proof fn lemma_drilled_keeps(
    pairs: Seq<(String, String)>,
    files: Seq<Seq<char>>,
    prefix: Seq<char>,
    i: int,
)
    requires
        0 <= i < pairs.len(),
        crate::text::starts_with(pairs[i].0@, prefix),
        drill_target(files, pairs[i].1@) is Some,
    ensures
        has_link(
            drilled(pairs, files, prefix).links,
            pairs[i].0@,
            link_key(drill_target(files, pairs[i].1@)->0),
        ),
    decreases pairs.len(),
{
    let p = pairs.drop_last();
    let d = drilled(p, files, prefix);
    let e = drilled(pairs, files, prefix);
    let src = pairs[i].0@;
    let key = link_key(drill_target(files, pairs[i].1@)->0);
    if i < p.len() {
        assert(p[i] == pairs[i]);
        lemma_drilled_keeps(p, files, prefix, i);
        let k = choose|k: int| 0 <= k < d.links.len() && (#[trigger] d.links[k]).0 == src && d.links[k].1 == key;
        assert(e.links[k] == d.links[k]);
    } else if !has_link(d.links, src, key) {
        assert(e.links[d.links.len() as int].0 == src);
    } else {
        assert(e.links == d.links);
    }
}

/// Every dependency of a file of the directory, on another of its files or on a package outside, is a link of the drawing.
pub proof fn law_every_dependency_of_a_directory_is_drawn(store: Store, prefix: Seq<char>, i: int)
    requires
        0 <= i < store.dep_pairs@.len(),
        prefix.is_prefix_of(store.dep_pairs@[i].0@),
    ensures
        prefix_files(store, prefix).contains(store.dep_pairs@[i].1@) ==> has_link(
            drilled(store.dep_pairs@, prefix_files(store, prefix), prefix).links,
            store.dep_pairs@[i].0@,
            store.dep_pairs@[i].1@,
        ),
        !prefix_files(store, prefix).contains(store.dep_pairs@[i].1@) && crate::overview::package_key(
            store.dep_pairs@[i].1@,
        ).len() > 0 ==> has_link(
            drilled(store.dep_pairs@, prefix_files(store, prefix), prefix).links,
            store.dep_pairs@[i].0@,
            "pkg:"@ + crate::overview::package_key(store.dep_pairs@[i].1@),
        ),
{
    let s = store.dep_pairs@[i].0@;
    assert(s.subrange(0, 0 + prefix.len() as int) =~= prefix);
    assert(crate::text::starts_with(s, prefix));
    let files = prefix_files(store, prefix);
    if drill_target(files, store.dep_pairs@[i].1@) is Some {
        lemma_drilled_keeps(store.dep_pairs@, files, prefix, i);
    }
}

/// Every file node below the prefix is a tile of the directory.
pub proof fn law_every_file_of_a_directory_is_a_tile(store: Store, prefix: Seq<char>, i: int)
    requires
        0 <= i < store.nodes@.len(),
        store.nodes@[i].kind@ == "file"@,
        prefix.is_prefix_of(store.nodes@[i].path@),
    ensures
        has_tile(crate::overview::drill(store, prefix).tiles, "file:"@ + store.nodes@[i].path@),
{
    let path = store.nodes@[i].path@;
    let nodes = files_among(store.nodes@);
    lemma_files_among(store.nodes@, i);
    let k = choose|k: int| 0 <= k < nodes.len() && nodes[k] == store.nodes@[i];
    let paths = crate::repo_map::node_paths(nodes);
    assert(paths[k] == path);
    assert(paths.contains(path));
    let p = |x: Seq<char>| crate::text::starts_with(x, prefix);
    crate::text::lemma_chosen(paths, p);
    assert(path.subrange(0, 0 + prefix.len() as int) =~= prefix);
    let own = crate::text::chosen(paths, p);
    assert(own.contains(path));
    own.lemma_cardinality_of_set();
    crate::order::law_finite_set_is_sorted(own.to_set());
    let files = prefix_files(store, prefix);
    assert(files == crate::order::sorted_of(own.to_set()));
    assert(own.to_set().contains(path));
    assert(files.to_set().contains(path));
    let j = choose|j: int| 0 <= j < files.len() && files[j] == path;
    let o = crate::overview::drill(store, prefix);
    assert(o.tiles[j] == (TileView::File { path: files[j] }));
    assert(o.tiles[j].id() == "file:"@ + path);
}

proof fn lemma_files_among(nodes: Seq<Node>, i: int)
    requires
        0 <= i < nodes.len(),
        nodes[i].kind@ == "file"@,
    ensures
        files_among(nodes).contains(nodes[i]),
    decreases nodes.len(),
{
    let p = nodes.drop_last();
    crate::store::lemma_push_contains(files_among(p), nodes.last(), nodes[i]);
    if i < p.len() {
        assert(p[i] == nodes[i]);
        lemma_files_among(p, i);
    }
}

/// A path leads to the package of its first directory; a top-level file to the root; a path out of the repository to none.
pub proof fn law_packages_are_first_directories(dir: Seq<char>, rest: Seq<char>)
    requires
        dir.len() > 0,
        !dir.contains('/'),
        !crate::text::starts_with(dir + "/"@ + rest, ".."@),
        !crate::text::contains(dir + "/"@ + rest, "://"@),
    ensures
        crate::overview::package_key(dir + "/"@ + rest) == dir,
{
    reveal_strlit("/");
    let path = dir + "/"@ + rest;
    assert(!crate::text::starts_with(path, "/"@)) by {
        if crate::text::starts_with(path, "/"@) {
            assert(path.subrange(0, 1)[0] == '/');
            assert(dir[0] == '/');
            assert(dir.contains(dir[0]));
        }
    }
    lemma_first_part(dir, rest);
}

proof fn lemma_first_part(dir: Seq<char>, rest: Seq<char>)
    requires
        !dir.contains('/'),
    ensures
        crate::split::split(dir + "/"@ + rest, '/', '/').len() > 1,
        crate::split::split(dir + "/"@ + rest, '/', '/')[0] == dir,
    decreases rest.len(),
{
    reveal_strlit("/");
    let path = dir + "/"@ + rest;
    if rest.len() == 0 {
        assert(path.drop_last() =~= dir);
        lemma_no_parts(dir);
    } else {
        assert(path.drop_last() =~= dir + "/"@ + rest.drop_last());
        lemma_first_part(dir, rest.drop_last());
    }
}

proof fn lemma_no_parts(s: Seq<char>)
    requires
        !s.contains('/'),
    ensures
        crate::split::split(s, '/', '/') == seq![s],
    decreases s.len(),
{
    if s.len() > 0 {
        let p = s.drop_last();
        assert(s[s.len() - 1] != '/');
        assert forall|i: int| 0 <= i < p.len() implies p[i] != '/' by {
            assert(s[i] != '/');
        }
        lemma_no_parts(p);
        assert(p.push(s.last()) =~= s);
        assert(crate::split::split(s, '/', '/') =~= seq![s]);
    } else {
        assert(s =~= Seq::<char>::empty());
    }
}

// ---------------------------------------------------------------- several repositories

proof fn lemma_with_tiles(old: Seq<TileView>, more: Seq<TileView>, id: Seq<char>)
    ensures
        has_tile(with_tiles(old, more), id) <==> has_tile(old, id) || has_tile(more, id),
    decreases more.len(),
{
    if more.len() > 0 {
        let p = more.drop_last();
        let m = with_tiles(old, p);
        let n = with_tiles(old, more);
        lemma_with_tiles(old, p, id);
        if has_tile(p, id) {
            let i = choose|i: int| 0 <= i < p.len() && (#[trigger] p[i]).id() == id;
            assert(more[i].id() == id);
        }
        if has_tile(more, id) {
            let i = choose|i: int| 0 <= i < more.len() && (#[trigger] more[i]).id() == id;
            if i < p.len() {
                assert(p[i].id() == id);
            }
        }
        if has_tile(m, id) {
            let i = choose|i: int| 0 <= i < m.len() && (#[trigger] m[i]).id() == id;
            assert(n[i].id() == id);
        }
        if has_tile(n, id) && !has_tile(m, id) {
            let i = choose|i: int| 0 <= i < n.len() && (#[trigger] n[i]).id() == id;
            assert(more[more.len() - 1].id() == id);
        }
        if more.last().id() == id {
            assert(more[more.len() - 1].id() == id);
            if !has_tile(m, id) {
                assert(n[n.len() - 1].id() == id);
            }
        }
    }
}

/// An overview of several repositories has every tile of each of them, and no other.
pub proof fn law_merged_overview_has_every_tile(
    repos: Seq<Repo>,
    places: Seq<int>,
    n: int,
    prefix: Seq<char>,
    id: Seq<char>,
)
    requires
        0 <= n <= places.len(),
    ensures
        has_tile(merged(repos, places, n, prefix).tiles, id) <==> exists|k: int|
            0 <= k < n && (repos[#[trigger] places[k]].store matches Some(s) && has_tile(
                shown(s, prefix).tiles,
                id,
            )),
    decreases n,
{
    if n > 0 {
        law_merged_overview_has_every_tile(repos, places, n - 1, prefix, id);
        let m = merged(repos, places, n - 1, prefix);
        if let Some(s) = repos[places[n - 1]].store {
            lemma_with_tiles(m.tiles, shown(s, prefix).tiles, id);
        }
        if has_tile(m.tiles, id) {
            let k = choose|k: int|
                0 <= k < n - 1 && (repos[#[trigger] places[k]].store matches Some(s) && has_tile(
                    shown(s, prefix).tiles,
                    id,
                ));
            assert(k < n);
        }
    }
}

} // verus!
