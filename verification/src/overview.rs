//! The overview of a repository: its components as tiles, or the files of one directory.

use vstd::prelude::*;

use crate::global::Repo;
use crate::json::{
    bool_value, list_value, no_fields, object_value, put, text_value, to_text, uint_value, JsonView,
};
use crate::order::{is_member, sort_unique};
use crate::regions::{
    crossings_of, dependents_of, repo_map_is_local_path, repo_map_region_of, repo_region_dep_edges, repo_regions,
};
use crate::split::split_on;
use crate::store::{keep, opt_view, Node, Store};
use crate::text::{cat2, has_prefix, has_str, list_has, same, tail_after_last};

verus! {

// ---------------------------------------------------------------- names

/// The top-level directory of a path; nothing for a path outside the repository.
pub open spec fn package_key(path: Seq<char>) -> Seq<char> {
    if path.len() == 0 || crate::text::starts_with(path, ".."@) || crate::text::starts_with(
        path,
        "/"@,
    ) || crate::text::contains(path, "://"@) {
        Seq::empty()
    } else if crate::split::split(path, '/', '/').len() <= 1 {
        "(root)"@
    } else {
        crate::split::split(path, '/', '/')[0]
    }
}

/// The top-level directory of a path.
pub fn pkg_key_from_path(path: &str) -> (r: String)
    ensures
        r@ == package_key(path@),
{
    if path.is_empty() || has_prefix(path, "..") || has_prefix(path, "/") || has_str(path, "://") {
        return String::new();
    }
    let parts = split_on(path, '/', '/');
    let ghost pv = crate::split::split(path@, '/', '/');
    assert(pv.len() == parts@.len());
    if parts.len() <= 1 {
        "(root)".to_owned()
    } else {
        assert(pv[0] == parts@[0]@);
        parts[0].clone()
    }
}

/// The name of the file at a path.
pub fn file_label(path: &str) -> (r: String)
    ensures
        r@ == crate::text::after_last(path@, '/', '/'),
{
    tail_after_last(path, '/', '/')
}

// ---------------------------------------------------------------- tiles

/// A tile of an overview.
pub enum TileView {
    /// A component with the number of its files and of the components that depend on it.
    Region { name: Seq<char>, files: nat, dependents: nat },
    /// A file.
    File { path: Seq<char> },
    /// A package outside the directory that is looked at.
    Outside { name: Seq<char> },
}

/// A tile of an overview.
#[derive(Debug)]
pub enum Tile {
    Region { name: String, files: usize, dependents: usize },
    File { path: String },
    Outside { name: String },
}

impl View for Tile {
    type V = TileView;

    open spec fn view(&self) -> TileView {
        match *self {
            Tile::Region { name, files, dependents } => TileView::Region {
                name: name@,
                files: files as nat,
                dependents: dependents as nat,
            },
            Tile::File { path } => TileView::File { path: path@ },
            Tile::Outside { name } => TileView::Outside { name: name@ },
        }
    }
}

impl TileView {
    pub open spec fn id(self) -> Seq<char> {
        match self {
            TileView::Region { name, .. } => "pkg:"@ + name,
            TileView::File { path } => "file:"@ + path,
            TileView::Outside { name } => "pkg:"@ + name,
        }
    }

    /// The fields of a tile.
    pub open spec fn fields(self) -> Seq<(Seq<char>, JsonView)> {
        match self {
            TileView::Region { name, files, dependents } => seq![
                ("id"@, JsonView::Text("pkg:"@ + name)),
                ("label"@, JsonView::Text(name)),
                ("kind"@, JsonView::Text("pkg"@)),
                ("file_count"@, JsonView::Uint(files)),
                ("dependents"@, JsonView::Uint(dependents)),
                ("ghost"@, JsonView::Bool(false)),
            ],
            TileView::File { path } => seq![
                ("id"@, JsonView::Text("file:"@ + path)),
                ("label"@, JsonView::Text(crate::text::after_last(path, '/', '/'))),
                ("kind"@, JsonView::Text("file"@)),
                ("path"@, JsonView::Text(path)),
                ("ghost"@, JsonView::Bool(false)),
            ],
            TileView::Outside { name } => seq![
                ("id"@, JsonView::Text("pkg:"@ + name)),
                ("label"@, JsonView::Text(name)),
                ("kind"@, JsonView::Text("ghost"@)),
                ("ghost"@, JsonView::Bool(true)),
            ],
        }
    }
}

impl Tile {
    fn id(&self) -> (r: String)
        ensures
            r@ == self@.id(),
    {
        match self {
            Tile::Region { name, .. } => cat2("pkg:", name.as_str()),
            Tile::File { path } => cat2("file:", path.as_str()),
            Tile::Outside { name } => cat2("pkg:", name.as_str()),
        }
    }

    fn copy(&self) -> (r: Tile)
        ensures
            r@ == self@,
    {
        match self {
            Tile::Region { name, files, dependents } => Tile::Region {
                name: name.clone(),
                files: *files,
                dependents: *dependents,
            },
            Tile::File { path } => Tile::File { path: path.clone() },
            Tile::Outside { name } => Tile::Outside { name: name.clone() },
        }
    }

    fn value(&self) -> (r: serde_json::Value)
        ensures
            crate::json::json_of(r) == crate::json::object(self@.fields()),
    {
        let id = self.id();
        let mut f = no_fields();
        put(&mut f, "id", text_value(id.as_str()));
        match self {
            Tile::Region { name, files, dependents } => {
                put(&mut f, "label", text_value(name.as_str()));
                put(&mut f, "kind", text_value("pkg"));
                put(&mut f, "file_count", uint_value(*files as u64));
                put(&mut f, "dependents", uint_value(*dependents as u64));
                put(&mut f, "ghost", bool_value(false));
            },
            Tile::File { path } => {
                let label = file_label(path.as_str());
                put(&mut f, "label", text_value(label.as_str()));
                put(&mut f, "kind", text_value("file"));
                put(&mut f, "path", text_value(path.as_str()));
                put(&mut f, "ghost", bool_value(false));
            },
            Tile::Outside { name } => {
                put(&mut f, "label", text_value(name.as_str()));
                put(&mut f, "kind", text_value("ghost"));
                put(&mut f, "ghost", bool_value(true));
            },
        }
        assert(crate::json::named(f@) =~= self@.fields());
        object_value(f)
    }
}

pub open spec fn tile_views(v: Seq<Tile>) -> Seq<TileView> {
    Seq::new(v.len(), |i: int| v[i]@)
}

pub open spec fn tile_list(v: Seq<TileView>) -> JsonView {
    JsonView::List(Seq::new(v.len(), |i: int| crate::json::object(v[i].fields())))
}

fn tile_list_value(v: &Vec<Tile>) -> (r: serde_json::Value)
    ensures
        crate::json::json_of(r) == tile_list(tile_views(v@)),
{
    let ghost tv = tile_views(v@);
    let mut out: Vec<serde_json::Value> = Vec::new();
    let mut i: usize = 0;
    while i < v.len()
        invariant
            i <= v@.len(),
            tv == tile_views(v@),
            out@.len() == i,
            forall|j: int|
                0 <= j < i ==> crate::json::json_of(#[trigger] out@[j]) == crate::json::object(
                    tv[j].fields(),
                ),
        decreases v@.len() - i,
    {
        out.push(v[i].value());
        i += 1;
    }
    assert(crate::json::jsons_of(out@) =~= Seq::new(
        tv.len(),
        |i: int| crate::json::object(tv[i].fields()),
    ));
    list_value(out)
}

// ---------------------------------------------------------------- the components

/// The files among the nodes.
pub open spec fn files_among(nodes: Seq<Node>) -> Seq<Node> {
    crate::store::kept(nodes, |n: Node| n.kind@ == "file"@)
}

/// The file nodes of a graph.
pub open spec fn file_nodes(store: Store) -> Seq<Node> {
    files_among(store.nodes@)
}

fn file_nodes_of(store: &Store) -> (r: Vec<Node>)
    ensures
        r@ == file_nodes(*store),
{
    let f = |n: &Node| -> (b: bool)
        ensures
            b == (n.kind@ == "file"@),
        { same(n.kind.as_str(), "file") };
    keep(&store.nodes, f, Ghost(|n: Node| n.kind@ == "file"@))
}

/// The paths of the file nodes that lie in the repository, one per node.
pub open spec fn local_paths(nodes: Seq<Node>) -> Seq<Seq<char>>
    decreases nodes.len(),
{
    if nodes.len() == 0 {
        Seq::empty()
    } else if crate::regions::is_local(nodes.last().path@) {
        local_paths(nodes.drop_last()).push(nodes.last().path@)
    } else {
        local_paths(nodes.drop_last())
    }
}

fn local_paths_of(nodes: &Vec<Node>) -> (r: Vec<String>)
    ensures
        crate::text::views(r@) == local_paths(nodes@),
{
    let mut r: Vec<String> = Vec::new();
    let mut i: usize = 0;
    assert(crate::text::views(r@) =~= local_paths(nodes@.take(0)));
    while i < nodes.len()
        invariant
            i <= nodes@.len(),
            crate::text::views(r@) == local_paths(nodes@.take(i as int)),
        decreases nodes@.len() - i,
    {
        assert(nodes@.take(i + 1).drop_last() =~= nodes@.take(i as int));
        if repo_map_is_local_path(nodes[i].path.as_str()) {
            proof {
                crate::text::lemma_views_push(r@, nodes@[i as int].path);
            }
            r.push(nodes[i].path.clone());
        }
        i += 1;
    }
    assert(nodes@.take(i as int) =~= nodes@);
    r
}

/// The region of each path.
pub open spec fn regions_of(paths: Seq<Seq<char>>, regions: Seq<Seq<char>>) -> Seq<Seq<char>> {
    Seq::new(paths.len(), |i: int| crate::regions::region_of(paths[i], regions))
}

/// How often a text is in a list.
pub open spec fn times(v: Seq<Seq<char>>, x: Seq<char>) -> nat
    decreases v.len(),
{
    if v.len() == 0 {
        0
    } else {
        times(v.drop_last(), x) + if v.last() == x {
            1nat
        } else {
            0
        }
    }
}

fn times_of(v: &Vec<String>, x: &str) -> (n: usize)
    ensures
        n == times(crate::text::views(v@), x@),
        n <= v@.len(),
{
    let ghost all = crate::text::views(v@);
    let mut n: usize = 0;
    let mut i: usize = 0;
    while i < v.len()
        invariant
            all == crate::text::views(v@),
            i <= v@.len(),
            n <= i,
            n == times(all.take(i as int), x@),
        decreases v@.len() - i,
    {
        assert(all.take(i + 1).drop_last() =~= all.take(i as int));
        assert(all.take(i + 1).last() == v@[i as int]@);
        if same(v[i].as_str(), x) {
            n += 1;
        }
        i += 1;
    }
    assert(all.take(i as int) =~= all);
    n
}

/// What an overview shows: tiles, and the links between them as often as they occur.
pub struct OverviewView {
    pub tiles: Seq<TileView>,
    pub links: Seq<(Seq<char>, Seq<char>)>,
}

/// The regions of the files of a repository.
pub open spec fn all_regions(store: Store) -> Seq<Seq<char>> {
    crate::regions::regions(crate::order::sorted_of(local_paths(file_nodes(store)).to_set()))
}

/// The regions that hold files, in order.
pub open spec fn held_regions(store: Store) -> Seq<Seq<char>> {
    crate::order::sorted_of(regions_of(local_paths(file_nodes(store)), all_regions(store)).to_set())
}

/// The components of a repository as tiles, and their dependencies: a link for each dependency
/// between files that leads from one component to another.
pub open spec fn components(store: Store) -> OverviewView {
    let regions = all_regions(store);
    let homes = regions_of(local_paths(file_nodes(store)), regions);
    let known = held_regions(store);
    let edges = crate::regions::region_edges(store.dep_pairs@, regions, known);
    let across = crate::regions::crossings(store.dep_pairs@, regions, known);
    OverviewView {
        tiles: Seq::new(
            known.len(),
            |i: int|
                TileView::Region {
                    name: known[i],
                    files: times(homes, known[i]),
                    dependents: crate::regions::dependents(edges, known[i]).len(),
                },
        ),
        links: Seq::new(across.len(), |i: int| ("pkg:"@ + across[i].0, "pkg:"@ + across[i].1)),
    }
}

/// Tiles and links.
struct Overview {
    tiles: Vec<Tile>,
    links: Vec<(String, String)>,
}

impl Overview {
    spec fn is(self, o: OverviewView) -> bool {
        &&& tile_views(self.tiles@) == o.tiles
        &&& crate::regions::pair_views(self.links@) == o.links
    }
}

fn components_of(store: &Store) -> (r: Overview)
    ensures
        r.is(components(*store)),
{
    let nodes = file_nodes_of(store);
    let paths = local_paths_of(&nodes);
    let ghost pv = crate::text::views(paths@);
    let files = sort_unique(&paths);
    let regions = repo_regions(&files);
    let ghost rv = crate::text::views(regions@);
    let mut homes: Vec<String> = Vec::new();
    let mut i: usize = 0;
    while i < paths.len()
        invariant
            i <= paths@.len(),
            pv == crate::text::views(paths@),
            rv == crate::text::views(regions@),
            homes@.len() == i,
            forall|j: int|
                0 <= j < i ==> #[trigger] homes@[j]@ == crate::regions::region_of(pv[j], rv),
        decreases paths@.len() - i,
    {
        homes.push(repo_map_region_of(paths[i].as_str(), &regions));
        i += 1;
    }
    assert(crate::text::views(homes@) =~= regions_of(pv, rv));
    let known = sort_unique(&homes);
    let ghost kv = crate::text::views(known@);
    let edges = repo_region_dep_edges(&store.dep_pairs, &regions, &known);
    let ghost ev = crate::regions::pair_views(edges@);
    let mut tiles: Vec<Tile> = Vec::new();
    let ghost want = components(*store);
    let mut k: usize = 0;
    while k < known.len()
        invariant
            k <= known@.len(),
            kv == crate::text::views(known@),
            ev == crate::regions::pair_views(edges@),
            tiles@.len() == k,
            forall|j: int|
                0 <= j < k ==> #[trigger] tiles@[j]@ == (TileView::Region {
                    name: kv[j],
                    files: times(crate::text::views(homes@), kv[j]),
                    dependents: crate::regions::dependents(ev, kv[j]).len(),
                }),
        decreases known@.len() - k,
    {
        assert(kv[k as int] == known@[k as int]@);
        tiles.push(
            Tile::Region {
                name: known[k].clone(),
                files: times_of(&homes, known[k].as_str()),
                dependents: dependents_of(&edges, known[k].as_str()),
            },
        );
        k += 1;
    }
    assert(tile_views(tiles@) =~= want.tiles);
    let across = crossings_of(&store.dep_pairs, &regions, &known);
    let ghost av = crate::regions::pair_views(across@);
    let mut links: Vec<(String, String)> = Vec::new();
    let mut m: usize = 0;
    while m < across.len()
        invariant
            m <= across@.len(),
            av == crate::regions::pair_views(across@),
            links@.len() == m,
            forall|j: int|
                0 <= j < m ==> (#[trigger] links@[j]).0@ == "pkg:"@ + av[j].0 && links@[j].1@
                    == "pkg:"@ + av[j].1,
        decreases across@.len() - m,
    {
        assert(av[m as int] == (across@[m as int].0@, across@[m as int].1@));
        links.push((cat2("pkg:", across[m].0.as_str()), cat2("pkg:", across[m].1.as_str())));
        m += 1;
    }
    assert(crate::regions::pair_views(links@) =~= want.links);
    Overview { tiles, links }
}

// ---------------------------------------------------------------- one directory

/// The files of a directory, in order, each once.
pub open spec fn prefix_files(store: Store, prefix: Seq<char>) -> Seq<Seq<char>> {
    crate::order::sorted_of(
        crate::text::chosen(
            crate::repo_map::node_paths(file_nodes(store)),
            |p: Seq<char>| crate::text::starts_with(p, prefix),
        ).to_set(),
    )
}

/// What a dependency leads to, seen from a directory: a file of it, or a package outside.
pub open spec fn drill_target(files: Seq<Seq<char>>, dst: Seq<char>) -> Option<TileView> {
    if files.contains(dst) {
        Some(TileView::File { path: dst })
    } else if package_key(dst).len() > 0 {
        Some(TileView::Outside { name: package_key(dst) })
    } else {
        None
    }
}

/// What a link is told apart by: the path of a file, or the id of a package.
pub open spec fn link_key(t: TileView) -> Seq<char> {
    match t {
        TileView::File { path } => path,
        _ => t.id(),
    }
}

/// The packages and links that dependencies give, each once, in order.
pub struct DrillView {
    pub ghosts: Seq<Seq<char>>,
    /// Source file, key and id of the target.
    pub links: Seq<(Seq<char>, Seq<char>, Seq<char>)>,
}

/// A link with that source and key is there.
pub open spec fn has_link(links: Seq<(Seq<char>, Seq<char>, Seq<char>)>, src: Seq<char>, key: Seq<char>) -> bool {
    exists|i: int| 0 <= i < links.len() && (#[trigger] links[i]).0 == src && links[i].1 == key
}

/// The dependencies of the files of a directory.
pub open spec fn drilled(pairs: Seq<(String, String)>, files: Seq<Seq<char>>, prefix: Seq<char>) -> DrillView
    decreases pairs.len(),
{
    if pairs.len() == 0 {
        DrillView { ghosts: Seq::empty(), links: Seq::empty() }
    } else {
        let d = drilled(pairs.drop_last(), files, prefix);
        let (src, dst) = (pairs.last().0@, pairs.last().1@);
        match drill_target(files, dst) {
            Some(t) => if !crate::text::starts_with(src, prefix) {
                d
            } else {
                DrillView {
                    ghosts: match t {
                        TileView::Outside { name } => if d.ghosts.contains(name) {
                            d.ghosts
                        } else {
                            d.ghosts.push(name)
                        },
                        _ => d.ghosts,
                    },
                    links: if has_link(d.links, src, link_key(t)) {
                        d.links
                    } else {
                        d.links.push((src, link_key(t), t.id()))
                    },
                }
            },
            None => d,
        }
    }
}

/// The files of a directory as tiles, the packages that they lead to, and the links between.
pub open spec fn drill(store: Store, prefix: Seq<char>) -> OverviewView {
    let files = prefix_files(store, prefix);
    let d = drilled(store.dep_pairs@, files, prefix);
    if files.len() == 0 {
        OverviewView { tiles: Seq::empty(), links: Seq::empty() }
    } else {
        OverviewView {
            tiles: Seq::new(files.len(), |i: int| TileView::File { path: files[i] }) + Seq::new(
                d.ghosts.len(),
                |i: int| TileView::Outside { name: d.ghosts[i] },
            ),
            links: Seq::new(
                d.links.len(),
                |i: int| ("file:"@ + d.links[i].0, d.links[i].2),
            ),
        }
    }
}

fn prefix_files_of(store: &Store, prefix: &str) -> (r: Vec<String>)
    ensures
        crate::text::views(r@) == prefix_files(*store, prefix@),
        crate::order::ascending(crate::text::views(r@)),
{
    let nodes = file_nodes_of(store);
    let mut paths: Vec<String> = Vec::new();
    let mut i: usize = 0;
    while i < nodes.len()
        invariant
            i <= nodes@.len(),
            paths@.len() == i,
            forall|j: int| 0 <= j < i ==> #[trigger] paths@[j]@ == nodes@[j].path@,
        decreases nodes@.len() - i,
    {
        paths.push(nodes[i].path.clone());
        i += 1;
    }
    assert(crate::text::views(paths@) =~= crate::repo_map::node_paths(nodes@));
    let f = |p: &String| -> (b: bool)
        ensures
            b == crate::text::starts_with(p@, prefix@),
        { has_prefix(p.as_str(), prefix) };
    let own = crate::text::choose_strings(
        &paths,
        f,
        Ghost(|p: Seq<char>| crate::text::starts_with(p, prefix@)),
    );
    sort_unique(&own)
}

/// The packages and links of a directory.
struct Drill {
    ghosts: Vec<String>,
    links: Vec<(String, String, String)>,
}

spec fn triple_views(v: Seq<(String, String, String)>) -> Seq<(Seq<char>, Seq<char>, Seq<char>)> {
    Seq::new(v.len(), |i: int| (v[i].0@, v[i].1@, v[i].2@))
}

impl Drill {
    spec fn is(self, d: DrillView) -> bool {
        &&& crate::text::views(self.ghosts@) == d.ghosts
        &&& triple_views(self.links@) == d.links
    }

    fn has_link(&self, src: &str, key: &str) -> (r: bool)
        ensures
            r == has_link(triple_views(self.links@), src@, key@),
    {
        let ghost lv = triple_views(self.links@);
        let mut i: usize = 0;
        while i < self.links.len()
            invariant
                lv == triple_views(self.links@),
                i <= self.links@.len(),
                forall|j: int| 0 <= j < i ==> !((#[trigger] lv[j]).0 == src@ && lv[j].1 == key@),
            decreases self.links@.len() - i,
        {
            assert(lv[i as int] == (
                self.links@[i as int].0@,
                self.links@[i as int].1@,
                self.links@[i as int].2@,
            ));
            if same(self.links[i].0.as_str(), src) && same(self.links[i].1.as_str(), key) {
                return true;
            }
            i += 1;
        }
        false
    }
}

fn drilled_of(pairs: &Vec<(String, String)>, files: &Vec<String>, prefix: &str) -> (d: Drill)
    requires
        crate::order::ascending(crate::text::views(files@)),
    ensures
        d.is(drilled(pairs@, crate::text::views(files@), prefix@)),
{
    let ghost fv = crate::text::views(files@);
    let mut d = Drill { ghosts: Vec::new(), links: Vec::new() };
    let mut i: usize = 0;
    proof {
        assert(crate::text::views(d.ghosts@) =~= Seq::<Seq<char>>::empty());
        assert(triple_views(d.links@) =~= Seq::<(Seq<char>, Seq<char>, Seq<char>)>::empty());
    }
    while i < pairs.len()
        invariant
            i <= pairs@.len(),
            fv == crate::text::views(files@),
            crate::order::ascending(fv),
            d.is(drilled(pairs@.take(i as int), fv, prefix@)),
        decreases pairs@.len() - i,
    {
        assert(pairs@.take(i + 1).drop_last() =~= pairs@.take(i as int));
        let src = &pairs[i].0;
        let dst = &pairs[i].1;
        if has_prefix(src.as_str(), prefix) {
            let inside = is_member(files, dst.as_str());
            let pkg = pkg_key_from_path(dst.as_str());
            if inside || !pkg.as_str().is_empty() {
                let (key, target) = if inside {
                    (dst.clone(), cat2("file:", dst.as_str()))
                } else {
                    (cat2("pkg:", pkg.as_str()), cat2("pkg:", pkg.as_str()))
                };
                if !inside && !list_has(&d.ghosts, pkg.as_str()) {
                    proof {
                        crate::text::lemma_views_push(d.ghosts@, pkg);
                    }
                    d.ghosts.push(pkg);
                }
                if !d.has_link(src.as_str(), key.as_str()) {
                    let ghost was = d.links@;
                    let ghost x = (src@, key@, target@);
                    d.links.push((src.clone(), key, target));
                    assert(triple_views(d.links@) =~= triple_views(was).push(x));
                }
            }
        }
        i += 1;
    }
    assert(pairs@.take(i as int) =~= pairs@);
    d
}

fn drill_of(store: &Store, prefix: &str) -> (r: Overview)
    ensures
        r.is(drill(*store, prefix@)),
{
    let files = prefix_files_of(store, prefix);
    let ghost fv = crate::text::views(files@);
    assert(fv.len() == files@.len());
    let mut tiles: Vec<Tile> = Vec::new();
    let mut links: Vec<(String, String)> = Vec::new();
    if files.len() == 0 {
        assert(tile_views(tiles@) =~= Seq::<TileView>::empty());
        assert(crate::regions::pair_views(links@) =~= Seq::<(Seq<char>, Seq<char>)>::empty());
        return Overview { tiles, links };
    }
    let d = drilled_of(&store.dep_pairs, &files, prefix);
    let ghost dv = drilled(store.dep_pairs@, fv, prefix@);
    let mut i: usize = 0;
    while i < files.len()
        invariant
            i <= files@.len(),
            fv == crate::text::views(files@),
            tiles@.len() == i,
            forall|j: int| 0 <= j < i ==> #[trigger] tiles@[j]@ == (TileView::File { path: fv[j] }),
        decreases files@.len() - i,
    {
        assert(fv[i as int] == files@[i as int]@);
        tiles.push(Tile::File { path: files[i].clone() });
        i += 1;
    }
    let ghost first = Seq::new(fv.len(), |i: int| TileView::File { path: fv[i] });
    assert(tile_views(tiles@) =~= first);
    let ghost second = Seq::new(dv.ghosts.len(), |i: int| TileView::Outside { name: dv.ghosts[i] });
    let mut k: usize = 0;
    assert(first + second.take(0) =~= first);
    assert(dv.ghosts.len() == d.ghosts@.len());
    while k < d.ghosts.len()
        invariant
            k <= d.ghosts@.len(),
            d.is(dv),
            dv.ghosts.len() == d.ghosts@.len(),
            second == Seq::new(dv.ghosts.len(), |i: int| TileView::Outside { name: dv.ghosts[i] }),
            tile_views(tiles@) == first + second.take(k as int),
        decreases d.ghosts@.len() - k,
    {
        let ghost was = tiles@;
        let t = Tile::Outside { name: d.ghosts[k].clone() };
        let ghost x = t@;
        tiles.push(t);
        proof {
            assert(dv.ghosts[k as int] == d.ghosts@[k as int]@);
            assert(x == second[k as int]);
            assert(tile_views(tiles@) =~= tile_views(was).push(x));
            assert((first + second.take(k as int)).push(x) =~= first + second.take(k + 1));
        }
        k += 1;
    }
    assert(second.take(k as int) =~= second);
    let mut m: usize = 0;
    assert(dv.links.len() == d.links@.len());
    while m < d.links.len()
        invariant
            m <= d.links@.len(),
            d.is(dv),
            dv.links.len() == d.links@.len(),
            links@.len() == m,
            forall|j: int|
                0 <= j < m ==> (#[trigger] links@[j]).0@ == "file:"@ + dv.links[j].0 && links@[j].1@
                    == dv.links[j].2,
        decreases d.links@.len() - m,
    {
        assert(dv.links[m as int] == (
            d.links@[m as int].0@,
            d.links@[m as int].1@,
            d.links@[m as int].2@,
        ));
        links.push((cat2("file:", d.links[m].0.as_str()), d.links[m].2.clone()));
        m += 1;
    }
    assert(crate::regions::pair_views(links@) =~= drill(*store, prefix@).links);
    Overview { tiles, links }
}

// ---------------------------------------------------------------- as JSON

/// The links, each once, in order of first occurrence.
pub open spec fn distinct(links: Seq<(Seq<char>, Seq<char>)>) -> Seq<(Seq<char>, Seq<char>)>
    decreases links.len(),
{
    if links.len() == 0 {
        Seq::empty()
    } else {
        let d = distinct(links.drop_last());
        if d.contains(links.last()) {
            d
        } else {
            d.push(links.last())
        }
    }
}

/// How often a link occurs.
pub open spec fn weight(links: Seq<(Seq<char>, Seq<char>)>, l: (Seq<char>, Seq<char>)) -> nat
    decreases links.len(),
{
    if links.len() == 0 {
        0
    } else {
        weight(links.drop_last(), l) + if links.last() == l {
            1nat
        } else {
            0
        }
    }
}

/// The fields of a link.
pub open spec fn link_fields(l: (Seq<char>, Seq<char>)) -> Seq<(Seq<char>, JsonView)> {
    seq![
        ("source"@, JsonView::Text(l.0)),
        ("target"@, JsonView::Text(l.1)),
        ("kind"@, JsonView::Text("imports"@)),
    ]
}

/// The links with how often they occur.
pub open spec fn weighted_list(links: Seq<(Seq<char>, Seq<char>)>) -> JsonView {
    let d = distinct(links);
    JsonView::List(
        Seq::new(
            d.len(),
            |i: int|
                crate::json::object(
                    link_fields(d[i]).push(("count"@, JsonView::Uint(weight(links, d[i])))),
                ),
        ),
    )
}

/// The links as they are.
pub open spec fn link_list(links: Seq<(Seq<char>, Seq<char>)>) -> JsonView {
    JsonView::List(Seq::new(links.len(), |i: int| crate::json::object(link_fields(links[i]))))
}

fn has_pair(v: &Vec<(String, String)>, a: &str, b: &str) -> (r: bool)
    ensures
        r == crate::regions::pair_views(v@).contains((a@, b@)),
{
    let ghost pv = crate::regions::pair_views(v@);
    let mut i: usize = 0;
    while i < v.len()
        invariant
            pv == crate::regions::pair_views(v@),
            i <= v@.len(),
            forall|j: int| 0 <= j < i ==> #[trigger] pv[j] != (a@, b@),
        decreases v@.len() - i,
    {
        assert(pv[i as int] == (v@[i as int].0@, v@[i as int].1@));
        if same(v[i].0.as_str(), a) && same(v[i].1.as_str(), b) {
            return true;
        }
        i += 1;
    }
    false
}

fn distinct_of(links: &Vec<(String, String)>) -> (r: Vec<(String, String)>)
    ensures
        crate::regions::pair_views(r@) == distinct(crate::regions::pair_views(links@)),
{
    let ghost lv = crate::regions::pair_views(links@);
    let mut r: Vec<(String, String)> = Vec::new();
    let mut i: usize = 0;
    assert(crate::regions::pair_views(r@) =~= distinct(lv.take(0)));
    while i < links.len()
        invariant
            lv == crate::regions::pair_views(links@),
            i <= links@.len(),
            crate::regions::pair_views(r@) == distinct(lv.take(i as int)),
        decreases links@.len() - i,
    {
        assert(lv.take(i + 1).drop_last() =~= lv.take(i as int));
        assert(lv.take(i + 1).last() == (links@[i as int].0@, links@[i as int].1@));
        if !has_pair(&r, links[i].0.as_str(), links[i].1.as_str()) {
            let ghost was = r@;
            r.push((links[i].0.clone(), links[i].1.clone()));
            assert(crate::regions::pair_views(r@) =~= crate::regions::pair_views(was).push(
                lv[i as int],
            ));
        }
        i += 1;
    }
    assert(lv.take(i as int) =~= lv);
    r
}

fn weight_of(links: &Vec<(String, String)>, a: &str, b: &str) -> (n: usize)
    ensures
        n == weight(crate::regions::pair_views(links@), (a@, b@)),
        n <= links@.len(),
{
    let ghost lv = crate::regions::pair_views(links@);
    let mut n: usize = 0;
    let mut i: usize = 0;
    while i < links.len()
        invariant
            lv == crate::regions::pair_views(links@),
            i <= links@.len(),
            n <= i,
            n == weight(lv.take(i as int), (a@, b@)),
        decreases links@.len() - i,
    {
        assert(lv.take(i + 1).drop_last() =~= lv.take(i as int));
        assert(lv.take(i + 1).last() == (links@[i as int].0@, links@[i as int].1@));
        if same(links[i].0.as_str(), a) && same(links[i].1.as_str(), b) {
            n += 1;
        }
        i += 1;
    }
    assert(lv.take(i as int) =~= lv);
    n
}

fn weighted_list_value(links: &Vec<(String, String)>) -> (r: serde_json::Value)
    ensures
        crate::json::json_of(r) == weighted_list(crate::regions::pair_views(links@)),
{
    let ghost lv = crate::regions::pair_views(links@);
    let d = distinct_of(links);
    let ghost dv = distinct(lv);
    assert(dv.len() == d@.len());
    let ghost want = Seq::new(
        dv.len(),
        |i: int|
            crate::json::object(
                link_fields(dv[i]).push(("count"@, JsonView::Uint(weight(lv, dv[i])))),
            ),
    );
    let mut out: Vec<serde_json::Value> = Vec::new();
    let mut i: usize = 0;
    while i < d.len()
        invariant
            i <= d@.len(),
            lv == crate::regions::pair_views(links@),
            dv == crate::regions::pair_views(d@),
            want == Seq::new(
                dv.len(),
                |i: int|
                    crate::json::object(
                        link_fields(dv[i]).push(("count"@, JsonView::Uint(weight(lv, dv[i])))),
                    ),
            ),
            out@.len() == i,
            forall|j: int| 0 <= j < i ==> crate::json::json_of(#[trigger] out@[j]) == want[j],
        decreases d@.len() - i,
    {
        let a = &d[i].0;
        let b = &d[i].1;
        assert(dv[i as int] == (a@, b@));
        let n: usize = weight_of(links, a.as_str(), b.as_str());
        let mut f = no_fields();
        put(&mut f, "source", text_value(a.as_str()));
        put(&mut f, "target", text_value(b.as_str()));
        put(&mut f, "kind", text_value("imports"));
        put(&mut f, "count", uint_value(n as u64));
        assert(crate::json::named(f@) =~= link_fields(dv[i as int]).push(
            ("count"@, JsonView::Uint(weight(lv, dv[i as int]))),
        ));
        out.push(object_value(f));
        i += 1;
    }
    assert(crate::json::jsons_of(out@) =~= want);
    list_value(out)
}

fn link_list_value(links: &Vec<(String, String)>) -> (r: serde_json::Value)
    ensures
        crate::json::json_of(r) == link_list(crate::regions::pair_views(links@)),
{
    let ghost lv = crate::regions::pair_views(links@);
    let mut out: Vec<serde_json::Value> = Vec::new();
    let mut i: usize = 0;
    while i < links.len()
        invariant
            i <= links@.len(),
            lv == crate::regions::pair_views(links@),
            out@.len() == i,
            forall|j: int|
                0 <= j < i ==> crate::json::json_of(#[trigger] out@[j]) == crate::json::object(
                    link_fields(lv[j]),
                ),
        decreases links@.len() - i,
    {
        assert(lv[i as int] == (links@[i as int].0@, links@[i as int].1@));
        let mut f = no_fields();
        put(&mut f, "source", text_value(links[i].0.as_str()));
        put(&mut f, "target", text_value(links[i].1.as_str()));
        put(&mut f, "kind", text_value("imports"));
        assert(crate::json::named(f@) =~= link_fields(lv[i as int]));
        out.push(object_value(f));
        i += 1;
    }
    assert(crate::json::jsons_of(out@) =~= Seq::new(
        lv.len(),
        |i: int| crate::json::object(link_fields(lv[i])),
    ));
    list_value(out)
}

/// The fields of an overview of components.
pub open spec fn overview_fields(o: OverviewView) -> Seq<(Seq<char>, JsonView)> {
    seq![
        ("nodes"@, tile_list(o.tiles)),
        ("edges"@, weighted_list(o.links)),
        ("mode"@, JsonView::Text("overview"@)),
    ]
}

/// The fields of an overview of one directory.
pub open spec fn drill_fields(o: OverviewView, prefix: Seq<char>) -> Seq<(Seq<char>, JsonView)> {
    seq![
        ("nodes"@, tile_list(o.tiles)),
        ("edges"@, link_list(o.links)),
        ("mode"@, JsonView::Text("prefix"@)),
        ("path_prefix"@, JsonView::Text(prefix)),
    ]
}

/// The components of a repository, as JSON.
pub open spec fn components_text(store: Store) -> Seq<char> {
    if components(store).tiles.len() == 0 {
        "{\"nodes\":[],\"edges\":[],\"mode\":\"overview\"}"@
    } else {
        crate::json::json_text(crate::json::object(overview_fields(components(store))))
    }
}

/// The files of a directory and what they lead to, as JSON.
pub open spec fn drill_text(store: Store, prefix: Seq<char>) -> Seq<char> {
    if drill(store, prefix).tiles.len() == 0 {
        "{\"nodes\":[],\"edges\":[],\"mode\":\"prefix\"}"@
    } else {
        crate::json::json_text(crate::json::object(drill_fields(drill(store, prefix), prefix)))
    }
}

/// The overview of a repository, or of one directory where one is named.
pub open spec fn overview_text(store: Store, prefix: Seq<char>) -> Seq<char> {
    if store.scan_failed {
        "{\"nodes\":[],\"edges\":[]}"@
    } else if prefix.len() == 0 {
        components_text(store)
    } else {
        drill_text(store, prefix)
    }
}

fn overview_value_text(o: &Overview, Ghost(v): Ghost<OverviewView>) -> (r: String)
    requires
        o.is(v),
    ensures
        r@ == crate::json::json_text(crate::json::object(overview_fields(v))),
{
    let mut f = no_fields();
    put(&mut f, "nodes", tile_list_value(&o.tiles));
    put(&mut f, "edges", weighted_list_value(&o.links));
    put(&mut f, "mode", text_value("overview"));
    assert(crate::json::named(f@) =~= overview_fields(v));
    to_text(&object_value(f))
}

/// The components of a repository and the dependencies between them, as JSON.
pub fn repo_overview_graph(store: &Store) -> (r: String)
    ensures
        r@ == components_text(*store),
{
    let o = components_of(store);
    assert(tile_views(o.tiles@).len() == o.tiles@.len());
    if o.tiles.len() == 0 {
        return "{\"nodes\":[],\"edges\":[],\"mode\":\"overview\"}".to_owned();
    }
    overview_value_text(&o, Ghost(components(*store)))
}

/// The files of a directory, the packages that they lead to, and the links between, as JSON.
pub fn package_drill_graph(store: &Store, path_prefix: &str) -> (r: String)
    ensures
        r@ == drill_text(*store, path_prefix@),
{
    let o = drill_of(store, path_prefix);
    assert(tile_views(o.tiles@).len() == o.tiles@.len());
    if o.tiles.len() == 0 {
        return "{\"nodes\":[],\"edges\":[],\"mode\":\"prefix\"}".to_owned();
    }
    let ghost v = drill(*store, path_prefix@);
    let mut f = no_fields();
    put(&mut f, "nodes", tile_list_value(&o.tiles));
    put(&mut f, "edges", link_list_value(&o.links));
    put(&mut f, "mode", text_value("prefix"));
    put(&mut f, "path_prefix", text_value(path_prefix));
    assert(crate::json::named(f@) =~= drill_fields(v, path_prefix@));
    to_text(&object_value(f))
}

/// The overview of a repository, or of one directory where one is named.
pub fn overview_graph(store: &Store, path_prefix: &str) -> (r: String)
    ensures
        r@ == overview_text(*store, path_prefix@),
{
    if store.scan_failed {
        return "{\"nodes\":[],\"edges\":[]}".to_owned();
    }
    if path_prefix.is_empty() {
        repo_overview_graph(store)
    } else {
        package_drill_graph(store, path_prefix)
    }
}

// ---------------------------------------------------------------- several repositories

/// What one repository shows.
pub open spec fn shown(store: Store, prefix: Seq<char>) -> OverviewView {
    if store.scan_failed {
        OverviewView { tiles: Seq::empty(), links: Seq::empty() }
    } else if prefix.len() == 0 {
        components(store)
    } else {
        drill(store, prefix)
    }
}

/// A tile with that id is there.
pub open spec fn has_tile(tiles: Seq<TileView>, id: Seq<char>) -> bool {
    exists|i: int| 0 <= i < tiles.len() && (#[trigger] tiles[i]).id() == id
}

/// The tiles with an id that is not there yet, added.
pub open spec fn with_tiles(old: Seq<TileView>, more: Seq<TileView>) -> Seq<TileView>
    decreases more.len(),
{
    if more.len() == 0 {
        old
    } else {
        let m = with_tiles(old, more.drop_last());
        if has_tile(m, more.last().id()) {
            m
        } else {
            m.push(more.last())
        }
    }
}

/// The overviews of the first `n` of the given repositories, put together.
pub open spec fn merged(repos: Seq<Repo>, places: Seq<int>, n: int, prefix: Seq<char>) -> OverviewView
    decreases n,
{
    if n <= 0 {
        OverviewView { tiles: Seq::empty(), links: Seq::empty() }
    } else {
        let m = merged(repos, places, n - 1, prefix);
        match repos[places[n - 1]].store {
            Some(store) => OverviewView {
                tiles: with_tiles(m.tiles, shown(store, prefix).tiles),
                links: m.links + shown(store, prefix).links,
            },
            None => m,
        }
    }
}

/// The places of the repositories that an overview covers.
pub open spec fn overview_places(repos: Seq<Repo>, repo: Option<Seq<char>>) -> Seq<int> {
    match repo {
        Some(name) => match crate::global::named(repos, name) {
            Some(i) => if repos[i].live {
                seq![i]
            } else {
                Seq::empty()
            },
            None => Seq::empty(),
        },
        None => crate::global::live(repos),
    }
}

/// The overview over the registered repositories.
pub open spec fn overview_global(repos: Seq<Repo>, repo: Option<Seq<char>>, prefix: Seq<char>) -> Seq<
    char,
> {
    let places = overview_places(repos, repo);
    if repo matches Some(name) && crate::global::named(repos, name) is None {
        "{\"nodes\":[],\"edges\":[],\"mode\":\"overview\"}"@
    } else {
        crate::json::json_text(
            crate::json::object(
                overview_fields(merged(repos, places, places.len() as int, prefix)),
            ),
        )
    }
}

/// The place of a repository.
fn find_repo(repos: &Vec<Repo>, name: &str) -> (r: Option<usize>)
    ensures
        r is Some == crate::global::named(repos@, name@) is Some,
        r matches Some(i) ==> crate::global::named(repos@, name@) == Some(i as int) && i
            < repos@.len(),
{
    let mut r: Option<usize> = None;
    let mut i: usize = 0;
    while i < repos.len()
        invariant
            i <= repos@.len(),
            r is Some == crate::global::named(repos@.take(i as int), name@) is Some,
            r matches Some(k) ==> crate::global::named(repos@.take(i as int), name@) == Some(
                k as int,
            ) && k < i,
        decreases repos@.len() - i,
    {
        assert(repos@.take(i + 1).drop_last() =~= repos@.take(i as int));
        if r.is_none() && same(repos[i].name.as_str(), name) {
            r = Some(i);
        }
        i += 1;
    }
    assert(repos@.take(i as int) =~= repos@);
    r
}

/// Whether a repository of that name is registered.
pub fn is_registered(repos: &Vec<Repo>, name: &str) -> (r: bool)
    ensures
        r == crate::global::named(repos@, name@) is Some,
{
    find_repo(repos, name).is_some()
}

fn has_tile_of(tiles: &Vec<Tile>, id: &str) -> (r: bool)
    ensures
        r == has_tile(tile_views(tiles@), id@),
{
    let ghost tv = tile_views(tiles@);
    let mut i: usize = 0;
    while i < tiles.len()
        invariant
            tv == tile_views(tiles@),
            i <= tiles@.len(),
            forall|j: int| 0 <= j < i ==> (#[trigger] tv[j]).id() != id@,
        decreases tiles@.len() - i,
    {
        assert(tv[i as int] == tiles@[i as int]@);
        let own = tiles[i].id();
        if same(own.as_str(), id) {
            return true;
        }
        i += 1;
    }
    false
}

fn shown_of(store: &Store, prefix: &str) -> (r: Overview)
    ensures
        r.is(shown(*store, prefix@)),
{
    if store.scan_failed {
        let r = Overview { tiles: Vec::new(), links: Vec::new() };
        assert(tile_views(r.tiles@) =~= Seq::<TileView>::empty());
        assert(crate::regions::pair_views(r.links@) =~= Seq::<(Seq<char>, Seq<char>)>::empty());
        r
    } else if prefix.is_empty() {
        components_of(store)
    } else {
        drill_of(store, prefix)
    }
}

fn add_overview(m: &mut Overview, o: Overview, Ghost(mv): Ghost<OverviewView>, Ghost(ov): Ghost<
    OverviewView,
>)
    requires
        old(m).is(mv),
        o.is(ov),
    ensures
        final(m).is(
            OverviewView {
                tiles: with_tiles(mv.tiles, ov.tiles),
                links: mv.links + ov.links,
            },
        ),
{
    let mut i: usize = 0;
    assert(ov.tiles.len() == o.tiles@.len());
    assert(ov.tiles.take(0) =~= Seq::<TileView>::empty());
    while i < o.tiles.len()
        invariant
            i <= o.tiles@.len(),
            o.is(ov),
            ov.tiles.len() == o.tiles@.len(),
            tile_views(m.tiles@) == with_tiles(mv.tiles, ov.tiles.take(i as int)),
            crate::regions::pair_views(m.links@) == mv.links,
        decreases o.tiles@.len() - i,
    {
        assert(ov.tiles.take(i + 1).drop_last() =~= ov.tiles.take(i as int));
        assert(ov.tiles.take(i + 1).last() == o.tiles@[i as int]@);
        let id = o.tiles[i].id();
        if !has_tile_of(&m.tiles, id.as_str()) {
            let ghost was = m.tiles@;
            let t = o.tiles[i].copy();
            let ghost x = t@;
            m.tiles.push(t);
            assert(tile_views(m.tiles@) =~= tile_views(was).push(x));
        }
        i += 1;
    }
    assert(ov.tiles.take(i as int) =~= ov.tiles);
    let mut links = o.links;
    let ghost a = m.links@;
    let ghost b = links@;
    m.links.append(&mut links);
    assert(crate::regions::pair_views(a + b) =~= crate::regions::pair_views(a)
        + crate::regions::pair_views(b));
}

/// The overviews of one named repository, or of all, put together: of tiles with one id the first,
/// and links as often as they occur anywhere.
pub fn overview_merged(repos: &Vec<Repo>, repo: Option<&str>, path_prefix: &str) -> (r: String)
    ensures
        r@ == overview_global(repos@, opt_view(repo), path_prefix@),
{
    let ghost places = overview_places(repos@, opt_view(repo));
    let mut picks: Vec<usize> = Vec::new();
    match repo {
        Some(name) => match find_repo(repos, name) {
            Some(i) => {
                if repos[i].live {
                    picks.push(i);
                }
            },
            None => {
                return "{\"nodes\":[],\"edges\":[],\"mode\":\"overview\"}".to_owned();
            },
        },
        None => {
            picks = crate::global::candidates(repos, None);
        },
    }
    assert(crate::rank::ints(picks@) =~= places);
    assert(places.len() == picks@.len());
    let mut m = Overview { tiles: Vec::new(), links: Vec::new() };
    proof {
        assert(tile_views(m.tiles@) =~= Seq::<TileView>::empty());
        assert(crate::regions::pair_views(m.links@) =~= Seq::<(Seq<char>, Seq<char>)>::empty());
    }
    let mut k: usize = 0;
    while k < picks.len()
        invariant
            k <= picks@.len(),
            places == crate::rank::ints(picks@),
            places.len() == picks@.len(),
            forall|j: int| 0 <= j < picks@.len() ==> #[trigger] picks@[j] < repos@.len(),
            m.is(merged(repos@, places, k as int, path_prefix@)),
        decreases picks@.len() - k,
    {
        assert(places[k as int] == picks@[k as int]);
        let ghost mv = merged(repos@, places, k as int, path_prefix@);
        if let Some(store) = &repos[picks[k]].store {
            let o = shown_of(store, path_prefix);
            add_overview(&mut m, o, Ghost(mv), Ghost(shown(*store, path_prefix@)));
        }
        k += 1;
    }
    overview_value_text(&m, Ghost(merged(repos@, places, places.len() as int, path_prefix@)))
}

// ---------------------------------------------------------------- laws

/// Every link is listed once, and a listed link occurs at least once.
pub proof fn law_distinct_links(links: Seq<(Seq<char>, Seq<char>)>)
    ensures
        distinct(links).no_duplicates(),
        forall|l: (Seq<char>, Seq<char>)| #[trigger] distinct(links).contains(l) <==> links.contains(l),
        forall|l: (Seq<char>, Seq<char>)| #[trigger] distinct(links).contains(l) ==> weight(links, l) > 0,
    decreases links.len(),
{
    if links.len() > 0 {
        let p = links.drop_last();
        let x = links.last();
        law_distinct_links(p);
        assert(links =~= p.push(x));
        assert forall|l: (Seq<char>, Seq<char>)| #[trigger]
            distinct(links).contains(l) <==> links.contains(l) by {
            crate::store::lemma_push_contains(p, x, l);
            crate::store::lemma_push_contains(distinct(p), x, l);
            assert(distinct(p).contains(l) <==> p.contains(l));
        }
        assert forall|l: (Seq<char>, Seq<char>)| #[trigger]
            distinct(links).contains(l) implies weight(links, l) > 0 by {
            if l != x {
                crate::store::lemma_push_contains(distinct(p), x, l);
                assert(distinct(p).contains(l));
            }
        }
        if !distinct(p).contains(x) {
            let d = distinct(p).push(x);
            assert forall|i: int, j: int| 0 <= i < d.len() && 0 <= j < d.len() && i != j implies d[i]
                != d[j] by {
                if i < distinct(p).len() {
                    assert(distinct(p).contains(distinct(p)[i]));
                }
                if j < distinct(p).len() {
                    assert(distinct(p).contains(distinct(p)[j]));
                }
            }
        }
    }
}

proof fn lemma_named_apart(p: Seq<char>, x: Seq<char>, y: Seq<char>)
    requires
        p + x == p + y,
    ensures
        x == y,
{
    assert((p + x).skip(p.len() as int) =~= x);
    assert((p + y).skip(p.len() as int) =~= y);
}

proof fn lemma_crossings_counted(
    pairs: Seq<(String, String)>,
    regions: Seq<Seq<char>>,
    known: Seq<Seq<char>>,
    links: Seq<(Seq<char>, Seq<char>)>,
    a: Seq<char>,
    b: Seq<char>,
)
    requires
        ({
            let across = crate::regions::crossings(pairs, regions, known);
            links == Seq::new(
                across.len(),
                |i: int| ("pkg:"@ + across[i].0, "pkg:"@ + across[i].1),
            )
        }),
    ensures
        weight(links, ("pkg:"@ + a, "pkg:"@ + b)) == pairs.filter(
            |p: (String, String)| crate::regions::joins(p, regions, known, a, b),
        ).len(),
    decreases pairs.len(),
{
    reveal(Seq::filter);
    let across = crate::regions::crossings(pairs, regions, known);
    if pairs.len() > 0 {
        let rest = crate::regions::crossings(pairs.drop_last(), regions, known);
        let fewer = Seq::new(rest.len(), |i: int| ("pkg:"@ + rest[i].0, "pkg:"@ + rest[i].1));
        lemma_crossings_counted(pairs.drop_last(), regions, known, fewer, a, b);
        let (sr, dr) = (
            crate::regions::region_of(pairs.last().0@, regions),
            crate::regions::region_of(pairs.last().1@, regions),
        );
        if crate::regions::joins(pairs.last(), regions, known, sr, dr) {
            assert(links.drop_last() =~= fewer);
            assert(links.last() == ("pkg:"@ + sr, "pkg:"@ + dr));
            if links.last() == ("pkg:"@ + a, "pkg:"@ + b) {
                lemma_named_apart("pkg:"@, sr, a);
                lemma_named_apart("pkg:"@, dr, b);
            }
        } else {
            assert(links =~= fewer);
        }
    }
}

/// A link between two components counts the dependencies between files that cross the border: both
/// files in the repository, the one in the first component and the other in the second, and both
/// components shown.
pub proof fn law_link_counts_crossing_pairs(store: Store, a: Seq<char>, b: Seq<char>)
    ensures
        weight(components(store).links, ("pkg:"@ + a, "pkg:"@ + b)) == store.dep_pairs@.filter(
            |p: (String, String)|
                crate::regions::joins(p, all_regions(store), held_regions(store), a, b),
        ).len(),
{
    lemma_crossings_counted(
        store.dep_pairs@,
        all_regions(store),
        held_regions(store),
        components(store).links,
        a,
        b,
    );
}

/// The dependencies by which components are ranked are those that links count, each once.
pub proof fn law_edges_are_the_distinct_crossings(
    pairs: Seq<(String, String)>,
    regions: Seq<Seq<char>>,
    known: Seq<Seq<char>>,
)
    ensures
        crate::regions::region_edges(pairs, regions, known) == distinct(
            crate::regions::crossings(pairs, regions, known),
        ),
    decreases pairs.len(),
{
    if pairs.len() > 0 {
        law_edges_are_the_distinct_crossings(pairs.drop_last(), regions, known);
        let rest = crate::regions::crossings(pairs.drop_last(), regions, known);
        let all = crate::regions::crossings(pairs, regions, known);
        if all.len() > rest.len() {
            assert(all.drop_last() =~= rest);
        }
    }
}

proof fn lemma_weight_adds(
    x: Seq<(Seq<char>, Seq<char>)>,
    y: Seq<(Seq<char>, Seq<char>)>,
    l: (Seq<char>, Seq<char>),
)
    ensures
        weight(x + y, l) == weight(x, l) + weight(y, l),
    decreases y.len(),
{
    if y.len() == 0 {
        assert(x + y =~= x);
    } else {
        assert((x + y).drop_last() =~= x + y.drop_last());
        lemma_weight_adds(x, y.drop_last(), l);
    }
}

/// Over several repositories a link counts as often as in all of them together.
pub proof fn law_merged_counts_add_up(
    repos: Seq<Repo>,
    places: Seq<int>,
    n: int,
    prefix: Seq<char>,
    l: (Seq<char>, Seq<char>),
)
    requires
        0 < n,
    ensures
        weight(merged(repos, places, n, prefix).links, l) == weight(
            merged(repos, places, n - 1, prefix).links,
            l,
        ) + match repos[places[n - 1]].store {
            Some(store) => weight(shown(store, prefix).links, l),
            None => 0,
        },
{
    if let Some(store) = repos[places[n - 1]].store {
        lemma_weight_adds(
            merged(repos, places, n - 1, prefix).links,
            shown(store, prefix).links,
            l,
        );
    }
}

proof fn lemma_crossings_known(
    pairs: Seq<(String, String)>,
    regions: Seq<Seq<char>>,
    known: Seq<Seq<char>>,
    i: int,
)
    requires
        0 <= i < crate::regions::crossings(pairs, regions, known).len(),
    ensures
        crate::regions::crosses(
            crate::regions::crossings(pairs, regions, known)[i].0,
            crate::regions::crossings(pairs, regions, known)[i].1,
            known,
        ),
    decreases pairs.len(),
{
    let rest = crate::regions::crossings(pairs.drop_last(), regions, known);
    if i < rest.len() {
        lemma_crossings_known(pairs.drop_last(), regions, known, i);
    }
}

/// Every link of an overview of components joins two of its tiles, and no tile with itself.
pub proof fn law_component_links_join_tiles(store: Store, i: int)
    requires
        0 <= i < components(store).links.len(),
    ensures
        has_tile(components(store).tiles, components(store).links[i].0),
        has_tile(components(store).tiles, components(store).links[i].1),
        components(store).links[i].0 != components(store).links[i].1,
{
    let known = held_regions(store);
    let tiles = components(store).tiles;
    let across = crate::regions::crossings(store.dep_pairs@, all_regions(store), known);
    lemma_crossings_known(store.dep_pairs@, all_regions(store), known, i);
    let (a, b) = across[i];
    let j = choose|j: int| 0 <= j < known.len() && known[j] == a;
    let k = choose|k: int| 0 <= k < known.len() && known[k] == b;
    assert(tiles[j].id() == "pkg:"@ + a);
    assert(tiles[k].id() == "pkg:"@ + b);
    if "pkg:"@ + a == "pkg:"@ + b {
        lemma_named_apart("pkg:"@, a, b);
    }
}

/// What the links of a directory are: each leads to a file of it or to a listed package, and no two
/// are equal.
spec fn drilled_well(d: DrillView, files: Seq<Seq<char>>) -> bool {
    &&& forall|i: int|
        0 <= i < d.links.len() ==> #[trigger] leads_to(d.links[i], files, d.ghosts)
    &&& forall|i: int, j: int|
        0 <= i < j < d.links.len() ==> !((#[trigger] d.links[i]).0 == (#[trigger] d.links[j]).0
            && d.links[i].1 == d.links[j].1)
}

/// A link to a file of the directory, or to a listed package.
spec fn leads_to(
    l: (Seq<char>, Seq<char>, Seq<char>),
    files: Seq<Seq<char>>,
    ghosts: Seq<Seq<char>>,
) -> bool {
    ||| files.contains(l.1) && l.2 == "file:"@ + l.1
    ||| l.2 == l.1 && exists|k: int| 0 <= k < ghosts.len() && l.1 == "pkg:"@ + #[trigger] ghosts[k]
}

proof fn lemma_drilled(pairs: Seq<(String, String)>, files: Seq<Seq<char>>, prefix: Seq<char>)
    ensures
        drilled_well(drilled(pairs, files, prefix), files),
    decreases pairs.len(),
{
    if pairs.len() > 0 {
        let d = drilled(pairs.drop_last(), files, prefix);
        let e = drilled(pairs, files, prefix);
        lemma_drilled(pairs.drop_last(), files, prefix);
        assert forall|i: int| 0 <= i < e.links.len() implies #[trigger] leads_to(
            e.links[i],
            files,
            e.ghosts,
        ) by {
            if i < d.links.len() {
                assert(e.links[i] == d.links[i]);
                assert(leads_to(d.links[i], files, d.ghosts));
                if !(files.contains(d.links[i].1) && d.links[i].2 == "file:"@ + d.links[i].1) {
                    let k = choose|k: int|
                        0 <= k < d.ghosts.len() && d.links[i].1 == "pkg:"@ + #[trigger] d.ghosts[k];
                    assert(e.ghosts[k] == d.ghosts[k]);
                }
            } else if let Some(TileView::Outside { name }) = drill_target(files, pairs.last().1@) {
                assert(e.ghosts.contains(name)) by {
                    if !d.ghosts.contains(name) {
                        assert(e.ghosts.last() == name);
                    }
                }
                let k = choose|k: int| 0 <= k < e.ghosts.len() && e.ghosts[k] == name;
                assert(e.links[i].1 == "pkg:"@ + e.ghosts[k]);
            }
        }
    }
}

/// Every link of the overview of a directory leads to one of its tiles, and no link is there twice.
pub proof fn law_drill_links_lead_to_tiles(store: Store, prefix: Seq<char>)
    ensures
        forall|i: int|
            0 <= i < drill(store, prefix).links.len() ==> has_tile(
                drill(store, prefix).tiles,
                #[trigger] drill(store, prefix).links[i].1,
            ),
        drill(store, prefix).links.no_duplicates(),
{
    let o = drill(store, prefix);
    let files = prefix_files(store, prefix);
    let d = drilled(store.dep_pairs@, files, prefix);
    lemma_drilled(store.dep_pairs@, files, prefix);
    if files.len() > 0 {
        assert forall|i: int| 0 <= i < o.links.len() implies has_tile(
            o.tiles,
            #[trigger] o.links[i].1,
        ) by {
            let l = d.links[i];
            assert(leads_to(l, files, d.ghosts));
            if files.contains(l.1) && l.2 == "file:"@ + l.1 {
                let k = choose|k: int| 0 <= k < files.len() && files[k] == l.1;
                assert(o.tiles[k] == (TileView::File { path: files[k] }));
                assert(o.tiles[k].id() == o.links[i].1);
            } else {
                let k = choose|k: int|
                    0 <= k < d.ghosts.len() && l.1 == "pkg:"@ + #[trigger] d.ghosts[k];
                assert(o.tiles[files.len() + k] == (TileView::Outside { name: d.ghosts[k] }));
                assert(o.tiles[files.len() + k].id() == o.links[i].1);
            }
        }
        assert forall|i: int, j: int| 0 <= i < o.links.len() && 0 <= j < o.links.len() && i
            != j implies o.links[i] != o.links[j] by {
            if o.links[i] == o.links[j] {
                lemma_named_apart("file:"@, d.links[i].0, d.links[j].0);
                lemma_same_key(d.links[i], d.links[j], files, d.ghosts);
                if i < j {
                    assert(d.links[i].1 == d.links[j].1);
                } else {
                    assert(d.links[j].1 == d.links[i].1);
                }
            }
        }
    }
}

/// Two links with one target have one key.
proof fn lemma_same_key(
    a: (Seq<char>, Seq<char>, Seq<char>),
    b: (Seq<char>, Seq<char>, Seq<char>),
    files: Seq<Seq<char>>,
    ghosts: Seq<Seq<char>>,
)
    requires
        leads_to(a, files, ghosts),
        leads_to(b, files, ghosts),
        a.2 == b.2,
    ensures
        a.1 == b.1,
{
    reveal_strlit("file:");
    reveal_strlit("pkg:");
    let a_file = files.contains(a.1) && a.2 == "file:"@ + a.1;
    let b_file = files.contains(b.1) && b.2 == "file:"@ + b.1;
    if a_file && b_file {
        lemma_named_apart("file:"@, a.1, b.1);
    } else if a_file {
        assert(a.2[0] == 'f');
        assert(b.2[0] == 'p');
    } else if b_file {
        assert(b.2[0] == 'f');
        assert(a.2[0] == 'p');
    }
}

} // verus!
