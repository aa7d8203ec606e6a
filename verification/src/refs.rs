//! Where a symbol is defined, and where it is used.

use vstd::prelude::*;

use crate::callers::{describe, line_suffix_of};
use crate::global::{attribute, collect_global, Repo};
use crate::names::{has_any_container, has_qualified_container, simple_name, split_dotted};
use crate::notes::{append_head_note, phase_b_pending};
use crate::order::sort_unique;
use crate::sanitize::{is_valid_arg, is_valid_opt_arg, sanitize_mcp_body_with_limit, wrap_envelope};
use crate::split::{lower_of, trim_end_of};
use crate::store::{keep, opt_view, sort_by_id, EdgeKind, Edge, Node, Store};
use crate::text::{cat2, cat3, dec_u32, dec_u64, dec_usize, has_suffix, join_strings, list_has, same};

verus! {

/// The most use sites that are listed per symbol.
pub const MAX_REFERENCE_SITES: usize = 500;

/// The most bytes of an answer that lists sites or matches.
pub const FIND_OUTPUT_LIMIT: usize = 512_000;

// ---------------------------------------------------------------- resolution

/// A node that defines something: neither a file nor an import.
pub open spec fn is_definition(n: Node) -> bool {
    n.kind@ != "file"@ && n.kind@ != "import"@
}

fn definition(n: &Node) -> (r: bool)
    ensures
        r == is_definition(*n),
{
    !same(n.kind.as_str(), "file") && !same(n.kind.as_str(), "import")
}

/// Whether a definition goes by the name.
pub open spec fn goes_by(n: Node, symbol: Seq<char>) -> bool {
    is_definition(n) && (n.signature@ == symbol || crate::names::bare_name(n.signature@) == symbol)
}

/// The definitions among the hits for a name.
pub open spec fn named_definitions(store: Store, symbol: Seq<char>) -> Seq<Node> {
    match store.name_hits(symbol) {
        Some(nodes) => crate::store::kept(nodes, |n: Node| goes_by(n, symbol)),
        None => Seq::empty(),
    }
}

fn name_definitions(store: &Store, symbol: &str) -> (r: Vec<Node>)
    ensures
        r@ == named_definitions(*store, symbol@),
{
    match store.search_nodes_by_name(symbol) {
        Some(nodes) => {
            let f = |n: &Node| -> (b: bool)
                ensures
                    b == goes_by(*n, symbol@),
                {
                    if definition(n) {
                        let bare = simple_name(n.signature.as_str());
                        same(n.signature.as_str(), symbol) || same(bare.as_str(), symbol)
                    } else {
                        false
                    }
                };
            keep(&nodes, f, Ghost(|n: Node| goes_by(n, symbol@)))
        },
        None => Vec::new(),
    }
}

/// The members of that bare name among the hits.
pub open spec fn members(store: Store, member: Seq<char>) -> Seq<Node> {
    match store.name_hits(member) {
        Some(nodes) => crate::store::kept(
            nodes,
            |n: Node| is_definition(n) && crate::names::bare_name(n.signature@) == member,
        ),
        None => Seq::empty(),
    }
}

/// The members of a container: those whose signature carries it, else the only member that carries
/// no container at all.
pub open spec fn container_members(store: Store, container: Seq<char>, member: Seq<char>) -> Seq<
    Node,
> {
    let all = members(store, member);
    let own = crate::store::kept(
        all,
        |n: Node| crate::names::qualified(n.signature@, container, member),
    );
    let bare = crate::store::kept(all, |n: Node| !crate::names::contained(n.signature@));
    if own.len() > 0 {
        own
    } else if bare.len() == 1 {
        bare
    } else {
        Seq::empty()
    }
}

fn find_members(store: &Store, container: &str, member: &str) -> (r: Vec<Node>)
    ensures
        r@ == container_members(*store, container@, member@),
{
    let all: Vec<Node> = match store.search_nodes_by_name(member) {
        Some(nodes) => {
            let f = |n: &Node| -> (b: bool)
                ensures
                    b == (is_definition(*n) && crate::names::bare_name(n.signature@) == member@),
                {
                    if definition(n) {
                        let bare = simple_name(n.signature.as_str());
                        same(bare.as_str(), member)
                    } else {
                        false
                    }
                };
            keep(
                &nodes,
                f,
                Ghost(
                    |n: Node|
                        is_definition(n) && crate::names::bare_name(n.signature@) == member@,
                ),
            )
        },
        None => Vec::new(),
    };
    assert(all@ =~= members(*store, member@));
    let g = |n: &Node| -> (b: bool)
        ensures
            b == crate::names::qualified(n.signature@, container@, member@),
        { has_qualified_container(n.signature.as_str(), container, member) };
    let own = keep(
        &all,
        g,
        Ghost(|n: Node| crate::names::qualified(n.signature@, container@, member@)),
    );
    if own.len() > 0 {
        return own;
    }
    let h = |n: &Node| -> (b: bool)
        ensures
            b == !crate::names::contained(n.signature@),
        { !has_any_container(n.signature.as_str()) };
    let bare = keep(&all, h, Ghost(|n: Node| !crate::names::contained(n.signature@)));
    if bare.len() == 1 {
        bare
    } else {
        Vec::new()
    }
}

/// What a dotted name denotes.
pub open spec fn dotted_definitions(store: Store, symbol: Seq<char>) -> Seq<Node> {
    match crate::names::dotted(symbol) {
        Some((container, member)) => if container.len() > 0 && member.len() > 0 {
            container_members(store, container, member)
        } else {
            Seq::empty()
        },
        None => Seq::empty(),
    }
}

/// The path is the hint, or ends in it at a directory boundary.
pub open spec fn at_path(path: Seq<char>, hint: Seq<char>) -> bool {
    path == hint || crate::text::ends_with(path, "/"@ + hint)
}

/// The candidates before the path hint: by exact signature, else by bare name, else as a member of
/// a container.
pub open spec fn candidates(store: Store, symbol: Seq<char>, path: Option<Seq<char>>) -> Seq<Node> {
    if store.exact_hits(symbol, path).len() > 0 {
        store.exact_hits(symbol, path)
    } else if named_definitions(store, symbol).len() > 0 {
        named_definitions(store, symbol)
    } else {
        dotted_definitions(store, symbol)
    }
}

/// The definitions that a name denotes, by id and each once; a path hint pins them to a file.
pub open spec fn resolved(store: Store, symbol: Seq<char>, path: Option<Seq<char>>) -> Seq<Node> {
    let all = candidates(store, symbol, path);
    match path {
        Some(p) => crate::store::by_id(crate::store::kept(all, |n: Node| at_path(n.path@, p))),
        None => crate::store::by_id(all),
    }
}

fn candidates_of(store: &Store, symbol: &str, path: Option<&str>) -> (r: Vec<Node>)
    ensures
        r@ == candidates(*store, symbol@, opt_view(path)),
{
    let exact = store.lookup_nodes_exact(symbol, path);
    if exact.len() > 0 {
        return exact;
    }
    let named = name_definitions(store, symbol);
    if named.len() > 0 {
        return named;
    }
    match split_dotted(symbol) {
        Some((container, member)) => if !container.as_str().is_empty()
            && !member.as_str().is_empty() {
            find_members(store, container.as_str(), member.as_str())
        } else {
            Vec::new()
        },
        None => Vec::new(),
    }
}

/// The definitions that a symbol name or signature denotes.
pub fn resolve_symbol_nodes(store: &Store, symbol: &str, path: Option<&str>) -> (r: Vec<Node>)
    ensures
        r@ == resolved(*store, symbol@, opt_view(path)),
{
    let all = candidates_of(store, symbol, path);
    match path {
        Some(p) => {
            let tail = cat2("/", p);
            let f = |n: &Node| -> (b: bool)
                ensures
                    b == at_path(n.path@, p@),
                { same(n.path.as_str(), p) || has_suffix(n.path.as_str(), tail.as_str()) };
            let pinned = keep(&all, f, Ghost(|n: Node| at_path(n.path@, p@)));
            sort_by_id(&pinned)
        },
        None => sort_by_id(&all),
    }
}

/// A header of C or C++.
pub open spec fn is_header(path: Seq<char>) -> bool {
    let p = crate::split::lower(path);
    crate::text::ends_with(p, ".h"@) || crate::text::ends_with(p, ".hpp"@)
        || crate::text::ends_with(p, ".hh"@) || crate::text::ends_with(p, ".hxx"@)
}

fn header_path(path: &str) -> (r: bool)
    ensures
        r == is_header(path@),
{
    let p = lower_of(path);
    has_suffix(p.as_str(), ".h") || has_suffix(p.as_str(), ".hpp") || has_suffix(p.as_str(), ".hh")
        || has_suffix(p.as_str(), ".hxx")
}

/// What a symbol argument denotes.
#[derive(Debug)]
pub enum RefTarget {
    /// One definition.
    Unique(Node),
    /// Several definitions, and nothing to choose by.
    Ambiguous(Vec<Node>),
    /// No definition.
    Absent,
}

/// The definitions without header declarations, where anything else is among them.
pub open spec fn without_headers(nodes: Seq<Node>) -> Seq<Node> {
    let sources = crate::store::kept(nodes, |n: Node| !is_header(n.path@));
    if nodes.len() > 1 && sources.len() > 0 {
        sources
    } else {
        nodes
    }
}

impl RefTarget {
    /// The definitions that are left.
    pub open spec fn nodes(self) -> Seq<Node> {
        match self {
            RefTarget::Unique(n) => seq![n],
            RefTarget::Ambiguous(v) => v@,
            RefTarget::Absent => Seq::empty(),
        }
    }

    /// The verdict says how many definitions are left.
    pub open spec fn well_formed(self) -> bool {
        self matches RefTarget::Ambiguous(v) ==> v@.len() > 1
    }
}

/// What a symbol name denotes, a definition before its header declaration.
pub fn resolve_reference_targets(store: &Store, symbol: &str, path: Option<&str>) -> (r: RefTarget)
    ensures
        r.well_formed(),
        r.nodes() == without_headers(resolved(*store, symbol@, opt_view(path))),
{
    let all = resolve_symbol_nodes(store, symbol, path);
    let f = |n: &Node| -> (b: bool)
        ensures
            b == !is_header(n.path@),
        { !header_path(n.path.as_str()) };
    let sources = keep(&all, f, Ghost(|n: Node| !is_header(n.path@)));
    let left = if all.len() > 1 && sources.len() > 0 {
        sources
    } else {
        all
    };
    if left.len() == 0 {
        assert(left@ =~= Seq::empty());
        RefTarget::Absent
    } else if left.len() == 1 {
        assert(left@ =~= seq![left@[0]]);
        RefTarget::Unique(left[0].clone())
    } else {
        RefTarget::Ambiguous(left)
    }
}

// ---------------------------------------------------------------- the answer

/// One definition of an ambiguous name.
pub open spec fn definition_line(n: Node) -> Seq<char> {
    "  "@ + crate::callers::place_of(n) + crate::callers::line_suffix(n.line) + "\n"@
}

/// The definitions, one per line.
pub open spec fn definition_lines(nodes: Seq<Node>) -> Seq<char>
    decreases nodes.len(),
{
    if nodes.len() == 0 {
        Seq::empty()
    } else {
        definition_lines(nodes.drop_last()) + definition_line(nodes.last())
    }
}

/// The first of the nodes, as many as are listed.
pub open spec fn listed<A>(v: Seq<A>) -> Seq<A> {
    if v.len() > MAX_REFERENCE_SITES {
        v.take(MAX_REFERENCE_SITES as int)
    } else {
        v
    }
}

/// The answer for an ambiguous name.
pub open spec fn ambiguity(symbol: Seq<char>, nodes: Seq<Node>) -> Seq<char> {
    crate::split::trim_end(
        "'"@ + symbol + "' is ambiguous, "@ + crate::text::dec(nodes.len())
            + " definitions. Re-run with a `path` hint to pick one:\n"@ + definition_lines(
            listed(nodes),
        ),
    )
}

fn ambiguity_of(symbol: &str, nodes: &Vec<Node>) -> (r: String)
    ensures
        r@ == ambiguity(symbol@, nodes@),
{
    let mut out = cat3("'", symbol, "' is ambiguous, ");
    let count = dec_usize(nodes.len());
    out.append(count.as_str());
    out.append(" definitions. Re-run with a `path` hint to pick one:\n");
    let ghost start = out@;
    let shown: usize = if nodes.len() > MAX_REFERENCE_SITES {
        MAX_REFERENCE_SITES
    } else {
        nodes.len()
    };
    let mut i: usize = 0;
    assert(start + definition_lines(nodes@.take(0)) =~= start);
    while i < shown
        invariant
            i <= shown <= nodes@.len(),
            out@ == start + definition_lines(nodes@.take(i as int)),
        decreases shown - i,
    {
        assert(nodes@.take(i + 1).drop_last() =~= nodes@.take(i as int));
        let place = describe(&nodes[i]);
        let loc = line_suffix_of(nodes[i].line);
        let mut line = cat3("  ", place.as_str(), loc.as_str());
        line.append("\n");
        out.append(line.as_str());
        assert(out@ =~= start + (definition_lines(nodes@.take(i as int)) + line@));
        i += 1;
    }
    assert(nodes@.take(shown as int) =~= listed(nodes@));
    trim_end_of(out.as_str())
}

/// The first line of an answer: what the symbol resolved to.
pub open spec fn resolution(n: Node) -> Seq<char> {
    "resolved: "@ + crate::callers::place_of(n) + crate::callers::line_suffix(n.line)
}

/// One use site.
pub open spec fn site_line(s: crate::store::Site) -> Seq<char> {
    s.path@ + ":"@ + crate::text::dec(s.line as nat)
}

/// The answer where use sites are recorded.
pub open spec fn sites_answer(n: Node, sites: Seq<crate::store::Site>) -> Seq<char> {
    let shown = listed(sites);
    let body = seq![resolution(n), crate::text::dec(sites.len()) + " reference(s):"@] + Seq::new(
        shown.len(),
        |i: int| site_line(shown[i]),
    );
    let all = if sites.len() > shown.len() {
        body.push(
            "[truncated: showing "@ + crate::text::dec(shown.len()) + " of "@ + crate::text::dec(
                sites.len(),
            ) + " sites]"@,
        )
    } else {
        body
    };
    crate::text::join(all, "\n"@)
}

/// The answer where the index cannot speak for the language.
pub open spec fn no_index(n: Node) -> Seq<char> {
    resolution(n) + "\nOccurrence index unavailable for '"@ + n.language@
        + "': semantic analysis (Phase B) recorded no reference occurrences for this language in this repo, the result below is not a definitive zero. Run `travsr status` to check Phase B, or use `find_pattern` for a textual search."@
}

/// The share of files with occurrence data, in whole percent; zero where there is no file.
pub open spec fn percent(covered: (u32, u32)) -> nat {
    if covered.1 == 0 {
        0
    } else {
        (100 * covered.0) as nat / covered.1 as nat
    }
}

/// The answer where the symbol's own file may not have been analysed.
pub open spec fn unanalysed(n: Node, covered: (u32, u32)) -> Seq<char> {
    resolution(n)
        + "\n0 recorded reference(s), not a definitive zero. No reference occurrences are recorded for '"@
        + n.path@ + "' itself, so semantic analysis may never have covered this file ("@
        + crate::text::dec(covered.0 as nat) + " of "@ + crate::text::dec(covered.1 as nat) + " '"@
        + n.language@ + "' files in this repo carry occurrence data, "@ + crate::text::dec(
        percent(covered),
    )
        + "%). Run `travsr status` to check Phase B, or use `find_pattern` for a textual search."@
}

/// The answer where the Dart dependencies are not resolved.
pub open spec fn unresolved_dart(n: Node) -> Seq<char> {
    resolution(n)
        + "\n0 recorded reference(s), not a definitive zero. This repo's Dart dependencies are not resolved (no `.dart_tool/package_config.json`), so cross-package references are not indexed. Run `dart pub get` and re-run `travsr init`, or use `find_pattern` for a textual search."@
}

/// The answer where the index knows of no use.
pub open spec fn genuine_zero(n: Node) -> Seq<char> {
    resolution(n)
        + "\n0 reference(s). This symbol has no recorded uses. If this name is also defined elsewhere, bare calls to it are left unindexed to avoid mis-targeting; use `find_pattern` for a textual search."@
}

/// The answer where neither use sites nor call edges are recorded. A zero is only stated of a
/// symbol whose language and file were analysed.
pub open spec fn zero_answer(store: Store, n: Node) -> Seq<char> {
    if !crate::text::views(store.occurrence_languages@).contains(n.language@) {
        no_index(n)
    } else if !crate::text::views(store.occurrence_files@).contains(n.path@) {
        unanalysed(n, store.covered(n.language@))
    } else if n.language@ == "dart"@ && crate::notes::filled(
        store.meta_value("dart_deps_unresolved"@),
    ) is Some {
        unresolved_dart(n)
    } else {
        genuine_zero(n)
    }
}

/// The sources of the call edges.
pub open spec fn call_sources(edges: Seq<Edge>) -> Seq<u64>
    decreases edges.len(),
{
    if edges.len() == 0 {
        Seq::empty()
    } else if edges.last().kind == EdgeKind::RefCall {
        call_sources(edges.drop_last()).push(edges.last().src)
    } else {
        call_sources(edges.drop_last())
    }
}

/// Where those of the nodes that are in the graph are defined.
pub open spec fn definition_sites(store: Store, ids: Seq<u64>) -> Seq<Seq<char>>
    decreases ids.len(),
{
    if ids.len() == 0 {
        Seq::empty()
    } else {
        match store.node(ids.last()) {
            Some(n) => definition_sites(store, ids.drop_last()).push(
                n.path@ + crate::callers::line_suffix(n.line),
            ),
            None => definition_sites(store, ids.drop_last()),
        }
    }
}

/// The answer where only call edges are recorded: the callers' definitions, sorted, each once.
pub open spec fn callers_answer(store: Store, n: Node, ids: Seq<u64>) -> Seq<char> {
    let sites = crate::order::sorted_of(definition_sites(store, ids).to_set());
    crate::text::join(
        seq![
            resolution(n),
            crate::text::dec(sites.len())
                + " caller definition(s) (exact occurrence lines unavailable for this language, showing caller definitions):"@,
        ] + listed(sites),
        "\n"@,
    )
}

/// The answer where no use sites are recorded.
pub open spec fn fallback(store: Store, n: Node) -> Seq<char> {
    let ids = call_sources(store.arriving(n.id));
    if store.unread_incoming@.contains(n.id) {
        Seq::empty()
    } else if ids.len() == 0 {
        zero_answer(store, n)
    } else {
        callers_answer(store, n, ids)
    }
}

/// The uses of a symbol.
pub open spec fn references(store: Store, symbol: Seq<char>, path: Option<Seq<char>>) -> Seq<char> {
    let nodes = without_headers(resolved(store, symbol, path));
    if nodes.len() == 0 {
        Seq::empty()
    } else if nodes.len() > 1 {
        ambiguity(symbol, nodes)
    } else if store.uses(nodes[0].id).len() > 0 {
        sites_answer(nodes[0], store.uses(nodes[0].id))
    } else {
        fallback(store, nodes[0])
    }
}

fn resolution_of(n: &Node) -> (r: String)
    ensures
        r@ == resolution(*n),
{
    let place = describe(n);
    let loc = line_suffix_of(n.line);
    cat3("resolved: ", place.as_str(), loc.as_str())
}

fn zero_answer_of(store: &Store, n: &Node) -> (r: String)
    ensures
        r@ == zero_answer(*store, *n),
{
    let mut out = resolution_of(n);
    if !list_has(&store.occurrence_languages, n.language.as_str()) {
        out.append("\nOccurrence index unavailable for '");
        out.append(n.language.as_str());
        out.append(
            "': semantic analysis (Phase B) recorded no reference occurrences for this language in this repo, the result below is not a definitive zero. Run `travsr status` to check Phase B, or use `find_pattern` for a textual search.",
        );
        return out;
    }
    if !list_has(&store.occurrence_files, n.path.as_str()) {
        let covered = store.language_occurrence_coverage(n.language.as_str());
        let share: u64 = if covered.1 == 0 {
            0
        } else {
            100 * (covered.0 as u64) / (covered.1 as u64)
        };
        let a = dec_u32(covered.0);
        let b = dec_u32(covered.1);
        let c = dec_u64(share);
        out.append(
            "\n0 recorded reference(s), not a definitive zero. No reference occurrences are recorded for '",
        );
        out.append(n.path.as_str());
        out.append("' itself, so semantic analysis may never have covered this file (");
        out.append(a.as_str());
        out.append(" of ");
        out.append(b.as_str());
        out.append(" '");
        out.append(n.language.as_str());
        out.append("' files in this repo carry occurrence data, ");
        out.append(c.as_str());
        out.append(
            "%). Run `travsr status` to check Phase B, or use `find_pattern` for a textual search.",
        );
        return out;
    }
    let unresolved = match store.get_meta("dart_deps_unresolved") {
        Some(v) => !v.as_str().is_empty(),
        None => false,
    };
    if same(n.language.as_str(), "dart") && unresolved {
        out.append(
            "\n0 recorded reference(s), not a definitive zero. This repo's Dart dependencies are not resolved (no `.dart_tool/package_config.json`), so cross-package references are not indexed. Run `dart pub get` and re-run `travsr init`, or use `find_pattern` for a textual search.",
        );
        return out;
    }
    out.append(
        "\n0 reference(s). This symbol has no recorded uses. If this name is also defined elsewhere, bare calls to it are left unindexed to avoid mis-targeting; use `find_pattern` for a textual search.",
    );
    out
}

fn call_sources_of(edges: &Vec<Edge>) -> (r: Vec<u64>)
    ensures
        r@ == call_sources(edges@),
{
    let mut r: Vec<u64> = Vec::new();
    let mut i: usize = 0;
    while i < edges.len()
        invariant
            i <= edges@.len(),
            r@ == call_sources(edges@.take(i as int)),
        decreases edges@.len() - i,
    {
        assert(edges@.take(i + 1).drop_last() =~= edges@.take(i as int));
        if edges[i].kind == EdgeKind::RefCall {
            r.push(edges[i].src);
        }
        i += 1;
    }
    assert(edges@.take(i as int) =~= edges@);
    r
}

/// The callers' definitions where no use sites are recorded, or why there is none.
pub fn reference_fallback_from_edges(store: &Store, target: &Node) -> (r: String)
    ensures
        r@ == fallback(*store, *target),
{
    if store.is_unread(target.id) {
        return String::new();
    }
    let edges = store.edges_to(target.id);
    let ids = call_sources_of(&edges);
    if ids.len() == 0 {
        return zero_answer_of(store, target);
    }
    let mut sites: Vec<String> = Vec::new();
    let mut i: usize = 0;
    assert(crate::text::views(sites@) =~= Seq::<Seq<char>>::empty());
    while i < ids.len()
        invariant
            i <= ids@.len(),
            crate::text::views(sites@) == definition_sites(*store, ids@.take(i as int)),
        decreases ids@.len() - i,
    {
        assert(ids@.take(i + 1).drop_last() =~= ids@.take(i as int));
        if let Some(n) = store.get_node(ids[i]) {
            let loc = line_suffix_of(n.line);
            let s = cat2(n.path.as_str(), loc.as_str());
            proof {
                crate::text::lemma_views_push(sites@, s);
            }
            sites.push(s);
        }
        i += 1;
    }
    assert(ids@.take(i as int) =~= ids@);
    let sorted = sort_unique(&sites);
    let mut lines: Vec<String> = Vec::new();
    lines.push(resolution_of(target));
    let count = dec_usize(sorted.len());
    lines.push(
        cat2(
            count.as_str(),
            " caller definition(s) (exact occurrence lines unavailable for this language, showing caller definitions):",
        ),
    );
    let ghost start = crate::text::views(lines@);
    let ghost all = crate::text::views(sorted@);
    let shown: usize = if sorted.len() > MAX_REFERENCE_SITES {
        MAX_REFERENCE_SITES
    } else {
        sorted.len()
    };
    let mut k: usize = 0;
    while k < shown
        invariant
            k <= shown <= sorted@.len(),
            all == crate::text::views(sorted@),
            crate::text::views(lines@) == start + all.take(k as int),
        decreases shown - k,
    {
        proof {
            crate::text::lemma_views_push(lines@, sorted@[k as int]);
            assert((start + all.take(k as int)).push(all[k as int]) =~= start + all.take(k + 1));
        }
        lines.push(sorted[k].clone());
        k += 1;
    }
    assert(all.take(shown as int) =~= listed(all));
    assert(start =~= seq![
        resolution(*target),
        crate::text::dec(all.len())
            + " caller definition(s) (exact occurrence lines unavailable for this language, showing caller definitions):"@,
    ]);
    join_strings(&lines, "\n")
}

fn sites_answer_of(n: &Node, sites: &Vec<&crate::store::Site>, Ghost(want): Ghost<
    Seq<crate::store::Site>,
>) -> (r: String)
    requires
        sites@.len() == want.len(),
        forall|k: int| 0 <= k < sites@.len() ==> *#[trigger] sites@[k] == want[k],
    ensures
        r@ == sites_answer(*n, want),
{
    let total: usize = sites.len();
    let shown: usize = if total > MAX_REFERENCE_SITES {
        MAX_REFERENCE_SITES
    } else {
        total
    };
    let mut lines: Vec<String> = Vec::new();
    lines.push(resolution_of(n));
    let t = dec_usize(total);
    lines.push(cat2(t.as_str(), " reference(s):"));
    let ghost start = crate::text::views(lines@);
    let ghost few = listed(want);
    let ghost rows = Seq::new(few.len(), |i: int| site_line(few[i]));
    assert(start =~= seq![resolution(*n), crate::text::dec(want.len()) + " reference(s):"@]);
    assert(start + rows.take(0) =~= start);
    let mut i: usize = 0;
    while i < shown
        invariant
            i <= shown <= sites@.len(),
            sites@.len() == want.len(),
            forall|k: int| 0 <= k < sites@.len() ==> *#[trigger] sites@[k] == want[k],
            few == listed(want),
            few.len() == shown,
            rows == Seq::new(few.len(), |i: int| site_line(few[i])),
            crate::text::views(lines@) == start + rows.take(i as int),
        decreases shown - i,
    {
        let d = dec_u32(sites[i].line);
        let s = cat3(sites[i].path.as_str(), ":", d.as_str());
        proof {
            crate::text::lemma_views_push(lines@, s);
            assert(*sites@[i as int] == want[i as int]);
            assert(few[i as int] == want[i as int]);
            assert((start + rows.take(i as int)).push(s@) =~= start + rows.take(i + 1));
        }
        lines.push(s);
        i += 1;
    }
    assert(start + rows.take(i as int) =~= start + rows);
    if total > shown {
        let a = dec_usize(shown);
        let b = dec_usize(total);
        let mut s = cat3("[truncated: showing ", a.as_str(), " of ");
        s.append(b.as_str());
        s.append(" sites]");
        proof {
            crate::text::lemma_views_push(lines@, s);
        }
        lines.push(s);
    }
    join_strings(&lines, "\n")
}

/// The uses of a symbol, or the definitions to choose from where its name is ambiguous.
pub fn find_references_raw(store: &Store, symbol: &str, path: Option<&str>) -> (r: String)
    ensures
        r@ == references(*store, symbol@, opt_view(path)),
{
    match resolve_reference_targets(store, symbol, path) {
        RefTarget::Absent => String::new(),
        RefTarget::Ambiguous(nodes) => ambiguity_of(symbol, &nodes),
        RefTarget::Unique(n) => {
            let sites = store.reference_sites(n.id);
            if sites.len() > 0 {
                sites_answer_of(&n, &sites, Ghost(store.uses(n.id)))
            } else {
                reference_fallback_from_edges(store, &n)
            }
        },
    }
}

/// The answer while the semantic pass is still owed.
pub open spec fn references_pending() -> Seq<char> {
    "{\"status\":\"pending\",\"message\":\"Semantic occurrence index is building in the background. References will be available in ~2 minutes. Run `travsr status` to check progress.\"}"@
}

/// The answer to a request for the uses of a symbol. The note on the commit is never cut off, and
/// stays inside the envelope.
pub open spec fn references_answer(
    store: Store,
    symbol: Seq<char>,
    path: Option<&str>,
    head: Option<Seq<char>>,
) -> Seq<char> {
    if !crate::sanitize::arg_ok(symbol) || !crate::sanitize::opt_arg_ok(path) {
        Seq::empty()
    } else if crate::notes::is_phase_b_pending(store) {
        references_pending()
    } else {
        crate::sanitize::envelope(
            crate::notes::head_notes(
                store,
                crate::sanitize::body(
                    references(store, symbol, opt_view(path)),
                    FIND_OUTPUT_LIMIT as nat,
                ),
                head,
            ),
        )
    }
}

/// Every use site of a symbol. `head` is the commit of the caller's checkout, where it is known.
pub fn find_references(store: &Store, symbol: &str, path: Option<&str>, head: Option<&str>) -> (r:
    String)
    ensures
        r@ == references_answer(*store, symbol@, path, opt_view(head)),
{
    if !is_valid_arg(symbol) || !is_valid_opt_arg(path) {
        return String::new();
    }
    if phase_b_pending(store) {
        return "{\"status\":\"pending\",\"message\":\"Semantic occurrence index is building in the background. References will be available in ~2 minutes. Run `travsr status` to check progress.\"}".to_owned();
    }
    let raw = find_references_raw(store, symbol, path);
    let body = sanitize_mcp_body_with_limit(raw.as_str(), FIND_OUTPUT_LIMIT);
    let noted = append_head_note(store, body, head);
    wrap_envelope(noted.as_str())
}

/// The part of one repository in an answer over several.
pub open spec fn references_part(
    repo: Repo,
    store: Store,
    single: bool,
    symbol: Seq<char>,
    path: Option<Seq<char>>,
) -> Seq<char> {
    crate::notes::head_notes(
        store,
        crate::global::attributed(repo.name@, references(store, symbol, path), single),
        repo.head_view(),
    )
}

/// What each repository gives.
pub open spec fn references_parts(symbol: Seq<char>, path: Option<Seq<char>>) -> spec_fn(Repo, Store, bool) -> Seq<char> {
    |r: Repo, s: Store, single: bool| references_part(r, s, single, symbol, path)
}

/// The answer over the registered repositories.
pub open spec fn references_global(
    repos: Seq<Repo>,
    symbol: Seq<char>,
    path: Option<&str>,
    repo: Option<Seq<char>>,
) -> Seq<char> {
    if crate::sanitize::arg_ok(symbol) && crate::sanitize::opt_arg_ok(path) {
        crate::sanitize::envelope(
            crate::sanitize::body(
                crate::global::gathered(
                    repos,
                    repo,
                    references_parts(symbol, opt_view(path)),
                ),
                FIND_OUTPUT_LIMIT as nat,
            ),
        )
    } else {
        Seq::empty()
    }
}

/// Every use site of a symbol in one named repository, or in all.
pub fn find_references_global(
    repos: &Vec<Repo>,
    symbol: &str,
    path: Option<&str>,
    repo: Option<&str>,
) -> (r: String)
    ensures
        r@ == references_global(repos@, symbol@, path, opt_view(repo)),
{
    if !is_valid_arg(symbol) || !is_valid_opt_arg(path) {
        return String::new();
    }
    let f = |x: &Repo, s: &Store, single: bool| -> (o: String)
        ensures
            o@ == references_part(*x, *s, single, symbol@, opt_view(path)),
        {
            let raw = find_references_raw(s, symbol, path);
            append_head_note(s, attribute(x.name.as_str(), raw, single), x.head_ref())
        };
    let raw = collect_global(
        repos,
        repo,
        f,
        Ghost(references_parts(symbol@, opt_view(path))),
    );
    let body = sanitize_mcp_body_with_limit(raw.as_str(), FIND_OUTPUT_LIMIT);
    wrap_envelope(body.as_str())
}

// ---------------------------------------------------------------- laws

/// The definitions of a name are distinct, and a path hint pins every one of them.
pub proof fn law_definitions_are_distinct(store: Store, symbol: Seq<char>, path: Option<Seq<char>>)
    ensures
        forall|i: int, j: int|
            0 <= i < j < resolved(store, symbol, path).len() ==> resolved(store, symbol, path)[i].id
                < resolved(store, symbol, path)[j].id,
        path matches Some(p) ==> forall|i: int|
            0 <= i < resolved(store, symbol, path).len() ==> at_path(
                #[trigger] resolved(store, symbol, path)[i].path@,
                p,
            ),
{
    let all = candidates(store, symbol, path);
    match path {
        Some(p) => {
            let q = |n: Node| at_path(n.path@, p);
            crate::store::lemma_by_id(crate::store::kept(all, q));
            crate::store::lemma_kept(all, q);
            assert forall|i: int| 0 <= i < resolved(store, symbol, path).len() implies at_path(
                #[trigger] resolved(store, symbol, path)[i].path@,
                p,
            ) by {
                let n = resolved(store, symbol, path)[i];
                assert(crate::store::kept(all, q).contains(n));
                assert(q(n));
            }
        },
        None => crate::store::lemma_by_id(all),
    }
}

/// A definitive zero is only stated of a symbol whose language and own file carry occurrence data.
pub proof fn law_zero_is_only_stated_of_analysed_files(store: Store, n: Node)
    requires
        !crate::text::views(store.occurrence_languages@).contains(n.language@)
            || !crate::text::views(store.occurrence_files@).contains(n.path@),
    ensures
        zero_answer(store, n) != genuine_zero(n),
{
    reveal_strlit(
        "\n0 reference(s). This symbol has no recorded uses. If this name is also defined elsewhere, bare calls to it are left unindexed to avoid mis-targeting; use `find_pattern` for a textual search.",
    );
    reveal_strlit("\nOccurrence index unavailable for '");
    reveal_strlit(
        "\n0 recorded reference(s), not a definitive zero. No reference occurrences are recorded for '",
    );
    let k = resolution(n).len() as int;
    assert(genuine_zero(n)[k + 1] == '0');
    assert(genuine_zero(n)[k + 5] == 'f');
    if !crate::text::views(store.occurrence_languages@).contains(n.language@) {
        assert(no_index(n)[k + 1] == 'O');
    } else {
        assert(unanalysed(n, store.covered(n.language@))[k + 5] == 'c');
    }
}

} // verus!
