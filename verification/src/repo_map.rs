//! The orientation map: the components of a repository, most depended-upon first.

use vstd::prelude::*;

use crate::global::{attribute, collect_global, Repo};
use crate::order::{sort_unique};
use crate::rank::{rank, Key, KeyView};
use crate::regions::{
    dependents_of, repo_map_is_local_path, repo_map_region_of, repo_region_dep_edges, repo_regions,
};
use crate::sanitize::sanitize_for_mcp;
use crate::store::{keep, opt_view, Node, Store};
use crate::text::{cat3, dec_usize, join_strings, same};
use crate::width::byte_len;

verus! {

/// The most symbols that are named per file.
pub const MAX_SYMBOLS_PER_FILE: usize = 5;

/// The most files that are listed per component.
pub const MAX_FILES_PER_REGION: usize = 6;

/// The most components whose files are listed.
pub const DETAIL_COMPONENTS: usize = 6;

/// The most bytes of a map.
pub const SOFT_CAP: usize = 3800;

/// The bytes that are kept free for each component that is still to be named.
pub const AVG_HDR_BYTES: usize = 64;

// ---------------------------------------------------------------- symbols

/// A kind that counts as code: neither a container nor an import nor documentation.
pub open spec fn is_symbol_kind(kind: Seq<char>) -> bool {
    kind != "file"@ && kind != "go-pkg"@ && kind != "import"@ && kind != "crate"@ && kind
        != "package"@ && kind != "doc-chunk"@ && kind != "file-module"@
}

/// Whether a node kind counts as code volume.
pub fn repo_map_is_symbol_kind(kind: &str) -> (r: bool)
    ensures
        r == is_symbol_kind(kind@),
{
    !same(kind, "file") && !same(kind, "go-pkg") && !same(kind, "import") && !same(kind, "crate")
        && !same(kind, "package") && !same(kind, "doc-chunk") && !same(kind, "file-module")
}

/// A symbol of the repository that has a name.
pub open spec fn is_symbol(n: Node) -> bool {
    crate::regions::is_local(n.path@) && is_symbol_kind(n.kind@) && n.signature@.len() > 0
}

/// The symbols among the nodes.
pub open spec fn symbols(nodes: Seq<Node>) -> Seq<Node> {
    crate::store::kept(nodes, |n: Node| is_symbol(n))
}

fn symbols_of(nodes: &Vec<Node>) -> (r: Vec<Node>)
    ensures
        r@ == symbols(nodes@),
{
    let f = |n: &Node| -> (b: bool)
        ensures
            b == is_symbol(*n),
        {
            repo_map_is_local_path(n.path.as_str()) && repo_map_is_symbol_kind(n.kind.as_str())
                && !n.signature.as_str().is_empty()
        };
    keep(nodes, f, Ghost(|n: Node| is_symbol(n)))
}

pub open spec fn node_paths(nodes: Seq<Node>) -> Seq<Seq<char>> {
    Seq::new(nodes.len(), |i: int| nodes[i].path@)
}

pub open spec fn node_signatures(nodes: Seq<Node>) -> Seq<Seq<char>> {
    Seq::new(nodes.len(), |i: int| nodes[i].signature@)
}

fn paths_of(nodes: &Vec<Node>) -> (r: Vec<String>)
    ensures
        crate::text::views(r@) == node_paths(nodes@),
{
    let mut r: Vec<String> = Vec::new();
    let mut i: usize = 0;
    while i < nodes.len()
        invariant
            i <= nodes@.len(),
            r@.len() == i,
            forall|j: int| 0 <= j < i ==> #[trigger] r@[j]@ == nodes@[j].path@,
        decreases nodes@.len() - i,
    {
        r.push(nodes[i].path.clone());
        i += 1;
    }
    assert(crate::text::views(r@) =~= node_paths(nodes@));
    r
}

fn signatures_of(nodes: &Vec<Node>) -> (r: Vec<String>)
    ensures
        crate::text::views(r@) == node_signatures(nodes@),
{
    let mut r: Vec<String> = Vec::new();
    let mut i: usize = 0;
    while i < nodes.len()
        invariant
            i <= nodes@.len(),
            r@.len() == i,
            forall|j: int| 0 <= j < i ==> #[trigger] r@[j]@ == nodes@[j].signature@,
        decreases nodes@.len() - i,
    {
        r.push(nodes[i].signature.clone());
        i += 1;
    }
    assert(crate::text::views(r@) =~= node_signatures(nodes@));
    r
}

/// The files of the repository in order.
pub open spec fn local_files(nodes: Seq<Node>) -> Seq<Seq<char>> {
    crate::order::sorted_of(
        node_paths(
            crate::store::kept(nodes, |n: Node| crate::regions::is_local(n.path@)),
        ).to_set(),
    )
}

fn local_files_of(nodes: &Vec<Node>) -> (r: Vec<String>)
    ensures
        crate::text::views(r@) == local_files(nodes@),
{
    let f = |n: &Node| -> (b: bool)
        ensures
            b == crate::regions::is_local(n.path@),
        { repo_map_is_local_path(n.path.as_str()) };
    let local = keep(nodes, f, Ghost(|n: Node| crate::regions::is_local(n.path@)));
    let paths = paths_of(&local);
    sort_unique(&paths)
}

// ---------------------------------------------------------------- components

/// The region of each node.
pub open spec fn homes(nodes: Seq<Node>, regions: Seq<Seq<char>>) -> Seq<Seq<char>> {
    Seq::new(nodes.len(), |i: int| crate::regions::region_of(nodes[i].path@, regions))
}

fn homes_of(nodes: &Vec<Node>, regions: &Vec<String>) -> (r: Vec<String>)
    ensures
        crate::text::views(r@) == homes(nodes@, crate::text::views(regions@)),
{
    let mut r: Vec<String> = Vec::new();
    let mut i: usize = 0;
    while i < nodes.len()
        invariant
            i <= nodes@.len(),
            r@.len() == i,
            forall|j: int|
                0 <= j < i ==> #[trigger] r@[j]@ == crate::regions::region_of(
                    nodes@[j].path@,
                    crate::text::views(regions@),
                ),
        decreases nodes@.len() - i,
    {
        r.push(repo_map_region_of(nodes[i].path.as_str(), regions));
        i += 1;
    }
    assert(crate::text::views(r@) =~= homes(nodes@, crate::text::views(regions@)));
    r
}

/// The symbols of one region.
pub open spec fn residents(syms: Seq<Node>, regions: Seq<Seq<char>>, r: Seq<char>) -> Seq<Node> {
    crate::store::kept(syms, |n: Node| crate::regions::region_of(n.path@, regions) == r)
}

fn residents_of(syms: &Vec<Node>, regions: &Vec<String>, r: &str) -> (v: Vec<Node>)
    ensures
        v@ == residents(syms@, crate::text::views(regions@), r@),
{
    let f = |n: &Node| -> (b: bool)
        ensures
            b == (crate::regions::region_of(n.path@, crate::text::views(regions@)) == r@),
        {
            let home = repo_map_region_of(n.path.as_str(), regions);
            same(home.as_str(), r)
        };
    keep(
        syms,
        f,
        Ghost(|n: Node| crate::regions::region_of(n.path@, crate::text::views(regions@)) == r@),
    )
}

/// The symbols of one file.
pub open spec fn file_symbols(syms: Seq<Node>, path: Seq<char>) -> Seq<Node> {
    crate::store::kept(syms, |n: Node| n.path@ == path)
}

fn file_symbols_of(syms: &Vec<Node>, path: &str) -> (v: Vec<Node>)
    ensures
        v@ == file_symbols(syms@, path@),
{
    let f = |n: &Node| -> (b: bool)
        ensures
            b == (n.path@ == path@),
        { same(n.path.as_str(), path) };
    keep(syms, f, Ghost(|n: Node| n.path@ == path@))
}

/// The regions that hold symbols, in order.
pub open spec fn known_regions(syms: Seq<Node>, regions: Seq<Seq<char>>) -> Seq<Seq<char>> {
    crate::order::sorted_of(homes(syms, regions).to_set())
}

/// What a map is made of.
pub struct MapView {
    pub symbols: Seq<Node>,
    pub regions: Seq<Seq<char>>,
    pub known: Seq<Seq<char>>,
    pub edges: Seq<(Seq<char>, Seq<char>)>,
    /// Call edges are recorded.
    pub calls: bool,
}

/// The parts of the map of a repository.
pub open spec fn map_view(store: Store) -> MapView {
    let syms = symbols(store.nodes@);
    let regions = crate::regions::regions(local_files(store.nodes@));
    let known = known_regions(syms, regions);
    MapView {
        symbols: syms,
        regions,
        known,
        edges: crate::regions::region_edges(store.dep_pairs@, regions, known),
        calls: store.has_calls,
    }
}

impl MapView {
    /// The code volume of a region.
    pub open spec fn volume(self, r: Seq<char>) -> nat {
        residents(self.symbols, self.regions, r).len()
    }

    /// How many regions depend on a region.
    pub open spec fn dependents(self, r: Seq<char>) -> nat {
        crate::regions::dependents(self.edges, r).len()
    }

    /// No region depends on another.
    pub open spec fn flat(self) -> bool {
        self.edges.len() == 0
    }

    /// What the regions are ranked by: their dependents, then their volume; the volume alone where
    /// no region depends on another.
    pub open spec fn keys(self) -> Seq<KeyView> {
        Seq::new(
            self.known.len(),
            |i: int|
                if self.flat() {
                    KeyView { first: self.volume(self.known[i]), second: 0, name: self.known[i] }
                } else {
                    KeyView {
                        first: self.dependents(self.known[i]),
                        second: self.volume(self.known[i]),
                        name: self.known[i],
                    }
                },
        )
    }

    /// The regions by rank.
    pub open spec fn ordered(self) -> Seq<Seq<char>> {
        crate::rank::at(self.known, crate::rank::order_of(self.keys()))
    }

    /// The line that names a region.
    pub open spec fn name_line(self, r: Seq<char>) -> Seq<char> {
        if self.flat() {
            r + "  symbols: "@ + crate::text::dec(self.volume(r)) + "\n"@
        } else {
            r + "  dependents: "@ + crate::text::dec(self.dependents(r)) + "  symbols: "@
                + crate::text::dec(self.volume(r)) + "\n"@
        }
    }

    /// The files of a region that hold symbols, in order.
    pub open spec fn files(self, r: Seq<char>) -> Seq<Seq<char>> {
        crate::order::sorted_of(
            node_paths(residents(self.symbols, self.regions, r)).to_set(),
        )
    }

    /// The line of each listed file of a region: most symbols first, only the first few files.
    pub open spec fn file_lines(self, r: Seq<char>) -> Seq<Seq<char>> {
        let files = by_volume(self.symbols, self.files(r));
        let n = if files.len() > MAX_FILES_PER_REGION {
            MAX_FILES_PER_REGION as nat
        } else {
            files.len()
        };
        Seq::new(n, |i: int| file_line(self.symbols, files[i]))
    }

    /// The first lines of the map.
    pub open spec fn header(self) -> Seq<char> {
        let ranking = if self.flat() {
            "Repo map, components ranked by code volume (symbols); no cross-component dependencies detected.\n"@
        } else {
            "Repo map, components ranked by dependents (most load-bearing first); symbols = code volume.\n"@
        };
        if self.calls {
            ranking
        } else {
            ranking
                + "Note: semantic analysis (Phase B) has not run, dependents are from import structure only; call-graph data is unavailable. Commit to trigger Phase B.\n"@
        }
    }

    pub open spec fn header_lines(self) -> nat {
        if self.calls {
            1
        } else {
            2
        }
    }
}

/// What files are ranked by.
pub open spec fn volume_keys(syms: Seq<Node>, files: Seq<Seq<char>>) -> Seq<KeyView> {
    Seq::new(
        files.len(),
        |i: int|
            (KeyView { first: file_symbols(syms, files[i]).len(), second: 0, name: files[i] }),
    )
}

/// The files with the most symbols first.
pub open spec fn by_volume(syms: Seq<Node>, files: Seq<Seq<char>>) -> Seq<Seq<char>> {
    crate::rank::at(files, crate::rank::order_of(volume_keys(syms, files)))
}

/// The names of the symbols of a file, in order and each once.
pub open spec fn file_names(syms: Seq<Node>, path: Seq<char>) -> Seq<Seq<char>> {
    crate::order::sorted_of(node_signatures(file_symbols(syms, path)).to_set())
}

/// How many more symbols there are than are named.
pub open spec fn names_left(n: nat) -> Seq<char> {
    if n > MAX_SYMBOLS_PER_FILE {
        ", … (+"@ + crate::text::dec((n - MAX_SYMBOLS_PER_FILE) as nat) + ")"@
    } else {
        Seq::empty()
    }
}

/// A file with the number of its symbols and the first of their names.
pub open spec fn file_line(syms: Seq<Node>, path: Seq<char>) -> Seq<char> {
    let names = file_names(syms, path);
    let shown = if names.len() > MAX_SYMBOLS_PER_FILE {
        names.take(MAX_SYMBOLS_PER_FILE as int)
    } else {
        names
    };
    "  "@ + path + "  ["@ + crate::text::dec(names.len()) + (if names.len() == 1 {
        " symbol]  "@
    } else {
        " symbols]  "@
    }) + crate::text::join(shown, ", "@) + names_left(names.len()) + "\n"@
}

// ---------------------------------------------------------------- the budget

/// A map in the making.
pub struct Draft {
    pub text: Seq<char>,
    pub lines: nat,
    pub named: nat,
}

/// What every line must leave room for: what is written, the names still to come, and what the
/// caller puts in front of each line.
pub open spec fn cost(
    header: nat,
    text: nat,
    line: nat,
    to_name: nat,
    lines: nat,
    reserve: nat,
) -> nat {
    header + text + line + to_name * (64 + reserve) + lines * reserve
}

/// The frame in which lines are added.
pub struct Frame {
    /// The bytes and lines of the header.
    pub header: nat,
    pub header_lines: nat,
    /// The bytes that the caller puts in front of each line.
    pub reserve: nat,
    /// The number of components.
    pub total: nat,
}

/// A file line still fits, with all names that are to come.
pub open spec fn file_fits(f: Frame, d: Draft, line: Seq<char>) -> bool {
    cost(
        f.header,
        crate::width::blen(d.text),
        crate::width::blen(line),
        if f.total > d.named {
            (f.total - d.named) as nat
        } else {
            0
        },
        f.header_lines + d.lines + 2,
        f.reserve,
    ) <= SOFT_CAP
}

/// A name line still fits.
pub open spec fn name_fits(f: Frame, d: Draft, line: Seq<char>) -> bool {
    cost(
        f.header,
        crate::width::blen(d.text),
        crate::width::blen(line),
        0,
        f.header_lines + d.lines + 2,
        f.reserve,
    ) <= SOFT_CAP
}

/// The draft with the file lines added, up to the first that does not fit.
pub open spec fn with_files(f: Frame, d: Draft, files: Seq<Seq<char>>) -> Draft
    decreases files.len(),
{
    if files.len() == 0 || !file_fits(f, d, files[0]) {
        d
    } else {
        with_files(
            f,
            Draft { text: d.text + files[0], lines: d.lines + 1, named: d.named },
            files.drop_first(),
        )
    }
}

/// The draft with the regions from place `i` on added, up to the first whose name does not fit.
/// The files of the first few are listed.
pub open spec fn with_regions(m: MapView, f: Frame, d: Draft, i: int) -> Draft
    decreases m.ordered().len() - i,
{
    let all = m.ordered();
    if i < 0 || i >= all.len() || !name_fits(f, d, m.name_line(all[i])) {
        d
    } else {
        let named = Draft {
            text: d.text + m.name_line(all[i]),
            lines: d.lines + 1,
            named: d.named + 1,
        };
        with_regions(
            m,
            f,
            if i >= DETAIL_COMPONENTS {
                named
            } else {
                with_files(f, named, m.file_lines(all[i]))
            },
            i + 1,
        )
    }
}

pub open spec fn frame(m: MapView, reserve: nat) -> Frame {
    Frame {
        header: crate::width::blen(m.header()),
        header_lines: m.header_lines(),
        reserve,
        total: m.ordered().len(),
    }
}

/// The components as far as they fit.
pub open spec fn body(m: MapView, reserve: nat) -> Draft {
    with_regions(
        m,
        frame(m, reserve),
        Draft { text: Seq::empty(), lines: 0, named: 0 },
        0,
    )
}

/// How many components are not named.
pub open spec fn footer(m: MapView, named: nat) -> Seq<char> {
    let total = m.ordered().len();
    if total > named {
        "+"@ + crate::text::dec((total - named) as nat) + " more components (of "@
            + crate::text::dec(total) + ")\n"@
    } else {
        Seq::empty()
    }
}

/// The map of a repository: nothing where the nodes cannot be read or hold no symbol, and a hint
/// where there are none.
pub open spec fn repo_map(store: Store, reserve: nat) -> Seq<char> {
    let m = map_view(store);
    if store.scan_failed {
        Seq::empty()
    } else if store.nodes@.len() == 0 {
        "Repo not indexed by Travsr. Run `travsr init` to build the graph."@
    } else if m.symbols.len() == 0 {
        Seq::empty()
    } else {
        m.header() + body(m, reserve).text + footer(m, body(m, reserve).named)
    }
}

fn fits(header: usize, text: usize, line: usize, to_name: usize, lines: usize, reserve: usize) -> (r:
    bool)
    requires
        lines >= 1,
        lines <= 100_000,
        text <= SOFT_CAP,
        header <= SOFT_CAP,
    ensures
        r == (cost(
            header as nat,
            text as nat,
            line as nat,
            to_name as nat,
            lines as nat,
            reserve as nat,
        ) <= SOFT_CAP),
{
    if reserve > SOFT_CAP {
        assert(lines * reserve >= reserve) by (nonlinear_arith)
            requires
                lines >= 1,
                reserve >= 0,
        ;
        assert(to_name * (64 + reserve) >= 0) by (nonlinear_arith)
            requires
                to_name >= 0,
                reserve >= 0,
        ;
        return false;
    }
    assert(to_name * (64 + reserve) <= 0xffff_ffff_ffff_ffff * 4000) by (nonlinear_arith)
        requires
            to_name <= 0xffff_ffff_ffff_ffff,
            reserve <= 3800,
    ;
    assert(lines * reserve <= 100_000 * 3800) by (nonlinear_arith)
        requires
            lines <= 100_000,
            reserve <= 3800,
    ;
    let a: u128 = header as u128 + text as u128 + line as u128;
    let b: u128 = (to_name as u128) * (64 + reserve as u128);
    let c: u128 = (lines as u128) * (reserve as u128);
    a + b + c <= SOFT_CAP as u128
}

// ---------------------------------------------------------------- drawing it

/// The parts of a map.
struct MapParts {
    syms: Vec<Node>,
    regions: Vec<String>,
    known: Vec<String>,
    edges: Vec<(String, String)>,
    calls: bool,
}

impl MapParts {
    spec fn is(self, m: MapView) -> bool {
        &&& self.syms@ == m.symbols
        &&& crate::text::views(self.regions@) == m.regions
        &&& crate::text::views(self.known@) == m.known
        &&& crate::regions::pair_views(self.edges@) == m.edges
        &&& self.calls == m.calls
    }

    fn flat(&self, Ghost(m): Ghost<MapView>) -> (r: bool)
        requires
            self.is(m),
        ensures
            r == m.flat(),
    {
        assert(crate::regions::pair_views(self.edges@).len() == self.edges@.len());
        self.edges.len() == 0
    }

    fn name_line(&self, r: &str, Ghost(m): Ghost<MapView>) -> (s: String)
        requires
            self.is(m),
        ensures
            s@ == m.name_line(r@),
    {
        let own = residents_of(&self.syms, &self.regions, r);
        let volume = dec_usize(own.len());
        if self.flat(Ghost(m)) {
            let mut s = cat3(r, "  symbols: ", volume.as_str());
            s.append("\n");
            s
        } else {
            let count = dec_usize(dependents_of(&self.edges, r));
            let mut s = cat3(r, "  dependents: ", count.as_str());
            s.append("  symbols: ");
            s.append(volume.as_str());
            s.append("\n");
            s
        }
    }

    fn ordered(&self, Ghost(m): Ghost<MapView>) -> (r: Vec<String>)
        requires
            self.is(m),
        ensures
            crate::text::views(r@) == m.ordered(),
    {
        let flat = self.flat(Ghost(m));
        let mut keys: Vec<Key> = Vec::new();
        let mut i: usize = 0;
        while i < self.known.len()
            invariant
                self.is(m),
                flat == m.flat(),
                i <= self.known@.len(),
                keys@.len() == i,
                forall|j: int| 0 <= j < i ==> #[trigger] keys@[j]@ == m.keys()[j],
            decreases self.known@.len() - i,
        {
            let r = &self.known[i];
            assert(m.known[i as int] == r@);
            let own = residents_of(&self.syms, &self.regions, r.as_str());
            if flat {
                keys.push(Key { first: own.len(), second: 0, name: r.clone() });
            } else {
                keys.push(
                    Key {
                        first: dependents_of(&self.edges, r.as_str()),
                        second: own.len(),
                        name: r.clone(),
                    },
                );
            }
            i += 1;
        }
        assert(crate::rank::key_views(keys@) =~= m.keys());
        let order = rank(&keys);
        pick(&self.known, &order, Ghost(m.known), Ghost(crate::rank::order_of(m.keys())))
    }

    fn file_lines(&self, r: &str, Ghost(m): Ghost<MapView>) -> (v: Vec<String>)
        requires
            self.is(m),
        ensures
            crate::text::views(v@) == m.file_lines(r@),
    {
        let own = residents_of(&self.syms, &self.regions, r);
        let paths = paths_of(&own);
        let files = sort_unique(&paths);
        let ghost fv = crate::text::views(files@);
        let mut keys: Vec<Key> = Vec::new();
        let mut i: usize = 0;
        while i < files.len()
            invariant
                self.is(m),
                fv == crate::text::views(files@),
                i <= files@.len(),
                keys@.len() == i,
                forall|j: int|
                    0 <= j < i ==> #[trigger] keys@[j]@ == volume_keys(m.symbols, fv)[j],
            decreases files@.len() - i,
        {
            let there = file_symbols_of(&self.syms, files[i].as_str());
            keys.push(Key { first: there.len(), second: 0, name: files[i].clone() });
            i += 1;
        }
        assert(crate::rank::key_views(keys@) =~= volume_keys(m.symbols, fv));
        let order = rank(&keys);
        let ranked = pick(
            &files,
            &order,
            Ghost(fv),
            Ghost(crate::rank::order_of(volume_keys(m.symbols, fv))),
        );
        let n: usize = if ranked.len() > MAX_FILES_PER_REGION {
            MAX_FILES_PER_REGION
        } else {
            ranked.len()
        };
        let ghost rv = by_volume(m.symbols, m.files(r@));
        assert(crate::text::views(ranked@) == rv);
        let mut out: Vec<String> = Vec::new();
        let mut k: usize = 0;
        while k < n
            invariant
                self.is(m),
                k <= n <= ranked@.len(),
                crate::text::views(ranked@) == rv,
                out@.len() == k,
                forall|j: int| 0 <= j < k ==> #[trigger] out@[j]@ == file_line(m.symbols, rv[j]),
            decreases n - k,
        {
            assert(rv[k as int] == ranked@[k as int]@);
            out.push(file_line_of(&self.syms, ranked[k].as_str()));
            k += 1;
        }
        assert(crate::text::views(ranked@).len() == ranked@.len());
        assert(crate::text::views(out@) =~= m.file_lines(r@));
        out
    }
}

/// The texts at the given places.
fn pick(v: &Vec<String>, order: &Vec<usize>, Ghost(sv): Ghost<Seq<Seq<char>>>, Ghost(p): Ghost<
    Seq<int>,
>) -> (r: Vec<String>)
    requires
        sv == crate::text::views(v@),
        p == crate::rank::ints(order@),
        forall|i: int| 0 <= i < order@.len() ==> #[trigger] order@[i] < v@.len(),
    ensures
        crate::text::views(r@) == crate::rank::at(sv, p),
{
    let mut r: Vec<String> = Vec::new();
    let mut k: usize = 0;
    while k < order.len()
        invariant
            sv == crate::text::views(v@),
            p == crate::rank::ints(order@),
            k <= order@.len(),
            forall|i: int| 0 <= i < order@.len() ==> #[trigger] order@[i] < v@.len(),
            r@.len() == k,
            forall|j: int| 0 <= j < k ==> #[trigger] r@[j]@ == sv[p[j]],
        decreases order@.len() - k,
    {
        assert(p[k as int] == order@[k as int]);
        r.push(v[order[k]].clone());
        k += 1;
    }
    assert(crate::text::views(r@) =~= crate::rank::at(sv, p));
    r
}

fn file_line_of(syms: &Vec<Node>, path: &str) -> (s: String)
    ensures
        s@ == file_line(syms@, path@),
{
    let there = file_symbols_of(syms, path);
    let sigs = signatures_of(&there);
    let mut names = sort_unique(&sigs);
    let ghost nv = crate::text::views(names@);
    let count: usize = names.len();
    assert(nv.len() == count);
    let number = dec_usize(count);
    let mut left = String::new();
    if count > MAX_SYMBOLS_PER_FILE {
        let more = dec_usize(count - MAX_SYMBOLS_PER_FILE);
        left = cat3(", … (+", more.as_str(), ")");
        names.truncate(MAX_SYMBOLS_PER_FILE);
        assert(crate::text::views(names@) =~= nv.take(MAX_SYMBOLS_PER_FILE as int));
    }
    let mut s = cat3("  ", path, "  [");
    s.append(number.as_str());
    if count == 1 {
        s.append(" symbol]  ");
    } else {
        s.append(" symbols]  ");
    }
    let preview = join_strings(&names, ", ");
    s.append(preview.as_str());
    s.append(left.as_str());
    s.append("\n");
    s
}

fn header_of(flat: bool, calls: bool, Ghost(m): Ghost<MapView>) -> (s: String)
    requires
        flat == m.flat(),
        calls == m.calls,
    ensures
        s@ == m.header(),
        crate::width::blen(s@) <= 400,
{
    let mut s = if flat {
        "Repo map, components ranked by code volume (symbols); no cross-component dependencies detected.\n".to_owned()
    } else {
        "Repo map, components ranked by dependents (most load-bearing first); symbols = code volume.\n".to_owned()
    };
    if !calls {
        s.append(
            "Note: semantic analysis (Phase B) has not run, dependents are from import structure only; call-graph data is unavailable. Commit to trigger Phase B.\n",
        );
    }
    proof {
        reveal_strlit(
            "Repo map, components ranked by code volume (symbols); no cross-component dependencies detected.\n",
        );
        reveal_strlit(
            "Repo map, components ranked by dependents (most load-bearing first); symbols = code volume.\n",
        );
        reveal_strlit(
            "Note: semantic analysis (Phase B) has not run, dependents are from import structure only; call-graph data is unavailable. Commit to trigger Phase B.\n",
        );
        crate::width::lemma_blen_ascii(s@);
    }
    s
}

fn parts_of(store: &Store) -> (p: MapParts)
    ensures
        p.is(map_view(*store)),
{
    let files = local_files_of(&store.nodes);
    let regions = repo_regions(&files);
    let syms = symbols_of(&store.nodes);
    let all = homes_of(&syms, &regions);
    let known = sort_unique(&all);
    let edges = repo_region_dep_edges(&store.dep_pairs, &regions, &known);
    MapParts { syms, regions, known, edges, calls: store.has_calls }
}

/// A draft and its measures.
struct Draw {
    text: String,
    /// The bytes of the text.
    bytes: usize,
    lines: usize,
    named: usize,
}

impl Draw {
    spec fn is(self, d: Draft) -> bool {
        &&& self.text@ == d.text
        &&& self.bytes == crate::width::blen(d.text)
        &&& self.lines == d.lines
        &&& self.named == d.named
        &&& self.lines <= self.bytes <= SOFT_CAP
        &&& self.named <= self.lines
    }
}

fn add_files(d: Draw, files: &Vec<String>, f_header: usize, f_lines: usize, reserve: usize, total:
    usize, Ghost(f): Ghost<Frame>, Ghost(g): Ghost<Draft>) -> (r: Draw)
    requires
        d.is(g),
        f == (Frame {
            header: f_header as nat,
            header_lines: f_lines as nat,
            reserve: reserve as nat,
            total: total as nat,
        }),
        f_header <= 400,
        f_lines <= 2,
        forall|k: int| 0 <= k < files@.len() ==> #[trigger] files@[k]@.len() > 0,
    ensures
        r.is(with_files(f, g, crate::text::views(files@))),
        r.named == d.named,
{
    let mut d = d;
    let ghost all = crate::text::views(files@);
    let ghost mut h = g;
    let mut i: usize = 0;
    assert(all.skip(0) =~= all);
    while i < files.len()
        invariant_except_break
            with_files(f, g, all) == with_files(f, h, all.skip(i as int)),
        invariant
            all == crate::text::views(files@),
            i <= files@.len(),
            d.is(h),
            d.named == g.named,
            f == (Frame {
                header: f_header as nat,
                header_lines: f_lines as nat,
                reserve: reserve as nat,
                total: total as nat,
            }),
            f_header <= 400,
            f_lines <= 2,
            forall|k: int| 0 <= k < files@.len() ==> #[trigger] files@[k]@.len() > 0,
        ensures
            with_files(f, g, all) == h,
        decreases files@.len() - i,
    {
        let line = &files[i];
        let size: usize = byte_len(line.as_str());
        let to_name: usize = if total > d.named {
            total - d.named
        } else {
            0
        };
        assert(all.skip(i as int)[0] == line@);
        let ok = fits(f_header, d.bytes, size, to_name, f_lines + d.lines + 2, reserve);
        assert(ok == file_fits(f, h, line@));
        if !ok {
            break;
        }
        proof {
            crate::width::lemma_blen_concat(d.text@, line@);
            crate::width::lemma_blen_positive(line@);
            lemma_cost(
                f.header,
                d.bytes as nat,
                size as nat,
                to_name as nat,
                (f_lines + d.lines + 2) as nat,
                reserve as nat,
            );
        }
        let mut text = d.text;
        text.append(line.as_str());
        d = Draw { text, bytes: d.bytes + size, lines: d.lines + 1, named: d.named };
        proof {
            h = Draft { text: h.text + line@, lines: h.lines + 1, named: h.named };
            assert(all.skip(i as int).drop_first() =~= all.skip(i + 1));
        }
        i += 1;
        if i == files.len() {
            assert(all.skip(i as int) =~= Seq::<Seq<char>>::empty());
            assert(with_files(f, h, all.skip(i as int)) == h);
            break;
        }
    }
    if files.len() == 0 {
        assert(all =~= Seq::<Seq<char>>::empty());
    }
    d
}

proof fn lemma_cost(header: nat, text: nat, line: nat, to_name: nat, lines: nat, reserve: nat)
    ensures
        cost(header, text, line, to_name, lines, reserve) >= header + text + line,
        cost(header, text, line, to_name, lines, reserve) >= header + text + line + lines * reserve,
{
    assert(to_name * (64 + reserve) >= 0) by (nonlinear_arith)
        requires
            to_name >= 0,
            reserve >= 0,
    ;
    assert(lines * reserve >= 0) by (nonlinear_arith)
        requires
            lines >= 0,
            reserve >= 0,
    ;
}

/// The map of a repository. `reserve_per_line` is what the caller puts in front of each line, in
/// bytes.
pub fn get_repo_map_raw(store: &Store, reserve_per_line: usize) -> (r: String)
    ensures
        r@ == repo_map(*store, reserve_per_line as nat),
{
    if store.scan_failed {
        return String::new();
    }
    if store.nodes.len() == 0 {
        return "Repo not indexed by Travsr. Run `travsr init` to build the graph.".to_owned();
    }
    let ghost m = map_view(*store);
    let parts = parts_of(store);
    if parts.syms.len() == 0 {
        return String::new();
    }
    let ordered = parts.ordered(Ghost(m));
    let total: usize = ordered.len();
    let header = header_of(parts.flat(Ghost(m)), parts.calls, Ghost(m));
    let header_bytes: usize = byte_len(header.as_str());
    let header_lines: usize = if parts.calls {
        1
    } else {
        2
    };
    let ghost f = frame(m, reserve_per_line as nat);
    let ghost all = m.ordered();
    assert(all.len() == total);
    let mut d = Draw { text: String::new(), bytes: 0, lines: 0, named: 0 };
    let ghost mut h = (Draft { text: Seq::empty(), lines: 0, named: 0 });
    proof {
        assert(d.text@ =~= Seq::<char>::empty());
        crate::width::lemma_blen_ascii(Seq::empty());
    }
    let mut i: usize = 0;
    while i < ordered.len()
        invariant_except_break
            body(m, reserve_per_line as nat) == with_regions(m, f, h, i as int),
        invariant
            i <= ordered@.len(),
            parts.is(m),
            all == m.ordered(),
            all == crate::text::views(ordered@),
            total == ordered@.len(),
            f == frame(m, reserve_per_line as nat),
            f == (Frame {
                header: header_bytes as nat,
                header_lines: header_lines as nat,
                reserve: reserve_per_line as nat,
                total: total as nat,
            }),
            header_bytes <= 400,
            header_lines <= 2,
            d.is(h),
            d.named <= i,
        ensures
            body(m, reserve_per_line as nat) == h,
        decreases ordered@.len() - i,
    {
        assert(all[i as int] == ordered@[i as int]@);
        let hdr = parts.name_line(ordered[i].as_str(), Ghost(m));
        let size: usize = byte_len(hdr.as_str());
        let ok = fits(header_bytes, d.bytes, size, 0, header_lines + d.lines + 2, reserve_per_line);
        assert(ok == name_fits(f, h, hdr@));
        if !ok {
            break;
        }
        proof {
            crate::width::lemma_blen_concat(d.text@, hdr@);
            lemma_name_line(m, all[i as int]);
            crate::width::lemma_blen_positive(hdr@);
            lemma_cost(
                f.header,
                d.bytes as nat,
                size as nat,
                0,
                (header_lines + d.lines + 2) as nat,
                reserve_per_line as nat,
            );
        }
        let mut text = d.text;
        text.append(hdr.as_str());
        d = Draw { text, bytes: d.bytes + size, lines: d.lines + 1, named: d.named + 1 };
        proof {
            h = Draft { text: h.text + hdr@, lines: h.lines + 1, named: h.named + 1 };
        }
        if i < DETAIL_COMPONENTS {
            let files = parts.file_lines(ordered[i].as_str(), Ghost(m));
            proof {
                assert forall|k: int| 0 <= k < files@.len() implies #[trigger] files@[k]@.len()
                    > 0 by {
                    assert(crate::text::views(files@)[k] == files@[k]@);
                    lemma_file_lines(m, all[i as int], k);
                }
            }
            d = add_files(
                d,
                &files,
                header_bytes,
                header_lines,
                reserve_per_line,
                total,
                Ghost(f),
                Ghost(h),
            );
            proof {
                h = with_files(f, h, m.file_lines(all[i as int]));
            }
        }
        i += 1;
        if i == ordered.len() {
            assert(with_regions(m, f, h, i as int) == h);
            break;
        }
    }
    if ordered.len() == 0 {
        assert(with_regions(m, f, h, 0) == h);
    }
    let mut out = header;
    out.append(d.text.as_str());
    if total > d.named {
        let a = dec_usize(total - d.named);
        let b = dec_usize(total);
        let mut foot = cat3("+", a.as_str(), " more components (of ");
        foot.append(b.as_str());
        foot.append(")\n");
        out.append(foot.as_str());
    } else {
        assert(out@ =~= m.header() + h.text + footer(m, h.named));
    }
    out
}

proof fn lemma_name_line(m: MapView, r: Seq<char>)
    ensures
        m.name_line(r).len() > 0,
{
    reveal_strlit("\n");
}

proof fn lemma_file_lines(m: MapView, r: Seq<char>, k: int)
    requires
        0 <= k < m.file_lines(r).len(),
    ensures
        m.file_lines(r)[k].len() > 0,
{
    reveal_strlit("\n");
}

/// The orientation map of a repository.
pub fn get_repo_map(store: &Store) -> (r: String)
    ensures
        r@ == crate::sanitize::scalar(repo_map(*store, 0)),
{
    let raw = get_repo_map_raw(store, 0);
    sanitize_for_mcp(raw.as_str())
}

/// The bytes that the mark of a repository takes in front of a line.
pub open spec fn mark_bytes(name: Seq<char>) -> nat {
    if crate::width::blen(name) + 3 > usize::MAX {
        usize::MAX as nat
    } else {
        crate::width::blen(name) + 3
    }
}

/// The part of one repository in a map over several.
pub open spec fn map_part(repo: Repo, store: Store, single: bool) -> Seq<char> {
    crate::global::attributed(
        repo.name@,
        repo_map(
            store,
            if single {
                0
            } else {
                mark_bytes(repo.name@)
            },
        ),
        single,
    )
}

/// The maps of one named repository, or of all.
pub fn get_repo_map_global(repos: &Vec<Repo>, repo: Option<&str>) -> (r: String)
    ensures
        r@ == crate::sanitize::scalar(
            crate::global::gathered(
                repos@,
                opt_view(repo),
                |r: Repo, s: Store, single: bool| map_part(r, s, single),
            ),
        ),
{
    let f = |x: &Repo, s: &Store, single: bool| -> (o: String)
        ensures
            o@ == map_part(*x, *s, single),
        {
            let size: usize = byte_len(x.name.as_str());
            let mark: usize = if size > usize::MAX - 3 {
                usize::MAX
            } else {
                size + 3
            };
            let reserve: usize = if single {
                0
            } else {
                mark
            };
            let raw = get_repo_map_raw(s, reserve);
            attribute(x.name.as_str(), raw, single)
        };
    let raw = collect_global(
        repos,
        repo,
        f,
        Ghost(|r: Repo, s: Store, single: bool| map_part(r, s, single)),
    );
    sanitize_for_mcp(raw.as_str())
}

// ---------------------------------------------------------------- laws

/// Header and lines leave room for what the caller puts in front of each of them and of the footer.
pub open spec fn leaves_room(f: Frame, d: Draft) -> bool {
    d.lines > 0 ==> f.header + crate::width::blen(d.text) + (f.header_lines + d.lines + 1)
        * f.reserve <= SOFT_CAP
}

proof fn lemma_with_files_bounds(f: Frame, d: Draft, files: Seq<Seq<char>>)
    requires
        f.header + crate::width::blen(d.text) <= SOFT_CAP,
        leaves_room(f, d),
    ensures
        leaves_room(f, with_files(f, d, files)),
        f.header + crate::width::blen(with_files(f, d, files).text) <= SOFT_CAP,
        with_files(f, d, files).named == d.named,
    decreases files.len(),
{
    if files.len() > 0 && file_fits(f, d, files[0]) {
        crate::width::lemma_blen_concat(d.text, files[0]);
        lemma_cost(
            f.header,
            crate::width::blen(d.text),
            crate::width::blen(files[0]),
            if f.total > d.named {
                (f.total - d.named) as nat
            } else {
                0
            },
            f.header_lines + d.lines + 2,
            f.reserve,
        );
        lemma_with_files_bounds(
            f,
            Draft { text: d.text + files[0], lines: d.lines + 1, named: d.named },
            files.drop_first(),
        );
    }
}

proof fn lemma_with_regions_bounds(m: MapView, f: Frame, d: Draft, i: int)
    requires
        0 <= i <= m.ordered().len(),
        f.header + crate::width::blen(d.text) <= SOFT_CAP,
        d.named <= i,
        leaves_room(f, d),
    ensures
        leaves_room(f, with_regions(m, f, d, i)),
        f.header + crate::width::blen(with_regions(m, f, d, i).text) <= SOFT_CAP,
        with_regions(m, f, d, i).named <= m.ordered().len(),
    decreases m.ordered().len() - i,
{
    let all = m.ordered();
    if i < all.len() && name_fits(f, d, m.name_line(all[i])) {
        let line = m.name_line(all[i]);
        let named = Draft { text: d.text + line, lines: d.lines + 1, named: d.named + 1 };
        crate::width::lemma_blen_concat(d.text, line);
        lemma_cost(
            f.header,
            crate::width::blen(d.text),
            crate::width::blen(line),
            0,
            f.header_lines + d.lines + 2,
            f.reserve,
        );
        if i < DETAIL_COMPONENTS {
            lemma_with_files_bounds(f, named, m.file_lines(all[i]));
            lemma_with_regions_bounds(m, f, with_files(f, named, m.file_lines(all[i])), i + 1);
        } else {
            lemma_with_regions_bounds(m, f, named, i + 1);
        }
    }
}

/// Header and components stay within the cap, also with what the caller puts in front of each line and
/// of the footer; and no more components are named than there are, so that the footer counts exactly
/// the rest.
pub proof fn law_map_stays_within_its_cap(m: MapView, reserve: nat)
    ensures
        crate::width::blen(m.header()) + crate::width::blen(body(m, reserve).text) <= SOFT_CAP,
        leaves_room(frame(m, reserve), body(m, reserve)),
        body(m, reserve).named <= m.ordered().len(),
{
    lemma_header(m);
    crate::width::lemma_blen_ascii(Seq::empty());
    lemma_with_regions_bounds(
        m,
        frame(m, reserve),
        Draft { text: Seq::empty(), lines: 0, named: 0 },
        0,
    );
}

proof fn lemma_header(m: MapView)
    ensures
        crate::width::blen(m.header()) <= 400,
{
    reveal_strlit(
        "Repo map, components ranked by code volume (symbols); no cross-component dependencies detected.\n",
    );
    reveal_strlit(
        "Repo map, components ranked by dependents (most load-bearing first); symbols = code volume.\n",
    );
    reveal_strlit(
        "Note: semantic analysis (Phase B) has not run, dependents are from import structure only; call-graph data is unavailable. Commit to trigger Phase B.\n",
    );
    crate::width::lemma_blen_ascii(m.header());
}

} // verus!
