//! Laws on which request leads to which answer, and on which nodes count.

use vstd::prelude::*;

use crate::blast::{is_blind, AnalysisMode};
use crate::global::Repo;
use crate::graph::{EdgeView, NodeView, Request};
use crate::graph_json::{graph_answer, GraphJsonParams};
use crate::lines::holds;
use crate::pattern::{plan, PlanView};
use crate::regions::{above, count, is_region, overfull};
use crate::store::{EdgeKind, Node, Store};

verus! {

// ---------------------------------------------------------------- components

/// A directory is above a path that goes on behind its name and a slash.
pub proof fn law_directories_are_above_what_is_below(d: Seq<char>, rest: Seq<char>, p: Seq<char>)
    ensures
        above(d, d + "/"@ + rest),
        above(d, p) ==> p == d + "/"@ + p.skip(d.len() as int + 1),
{
    reveal_strlit("/");
    let q = d + "/"@ + rest;
    assert(q.take(d.len() as int) =~= d);
    if above(d, p) {
        assert(p =~= d + "/"@ + p.skip(d.len() as int + 1)) by {
            assert forall|i: int| 0 <= i < p.len() implies p[i] == (d + "/"@ + p.skip(d.len() as int + 1))[i] by {
                if i < d.len() {
                    assert(p.take(d.len() as int)[i] == d[i]);
                }
            }
        }
    }
}

proof fn lemma_count(files: Seq<Seq<char>>, d: Seq<char>)
    ensures
        count(files, d) == files.filter(|p: Seq<char>| above(d, p)).len(),
    decreases files.len(),
{
    reveal(Seq::filter);
    if files.len() > 0 {
        lemma_count(files.drop_last(), d);
    }
}

/// A directory holds too many files for one component where it holds more than four, and more than a twenty-fourth of all.
pub proof fn law_components_are_split_by_size(files: Seq<Seq<char>>, d: Seq<char>)
    ensures
        overfull(files, d) <==> files.filter(|p: Seq<char>| above(d, p)).len() > 4 && files.filter(
            |p: Seq<char>| above(d, p),
        ).len() > files.len() / 24,
{
    lemma_count(files, d);
}

/// A directory other than the root is a component exactly where files lie below it, every directory above it holds too many, and it
/// itself does not, or has no directory in it, or has files of its own.
pub proof fn law_components_are_directories(files: Seq<Seq<char>>, d: Seq<char>)
    requires
        d != "(root)"@,
        !above("(root)"@, d),
    ensures
        is_region(files, d) <==> {
            &&& exists|i: int| 0 <= i < files.len() && above(d, #[trigger] files[i])
            &&& forall|i: int| 0 <= i < d.len() && d[i] == '/' ==> overfull(files, #[trigger] d.take(i))
            &&& {
                ||| !overfull(files, d)
                ||| forall|i: int|
                    0 <= i < files.len() && above(d, #[trigger] files[i]) ==> crate::regions::dir_of(files[i])
                        == d
                ||| exists|i: int|
                    0 <= i < files.len() && crate::regions::dir_of(#[trigger] files[i]) == d
            }
        },
{
}

/// The directory of a file is what stands before the last slash of its path.
pub proof fn law_directory_is_before_the_last_slash(dir: Seq<char>, name: Seq<char>)
    requires
        !name.contains('/'),
    ensures
        crate::regions::dir_of(dir + "/"@ + name) == dir,
        crate::regions::dir_of(name) == "(root)"@,
{
    reveal_strlit("/");
    lemma_last_slash(dir, name);
    assert((dir + "/"@ + name).take(dir.len() as int) =~= dir);
    lemma_no_slash(name);
}

proof fn lemma_last_slash(dir: Seq<char>, name: Seq<char>)
    requires
        !name.contains('/'),
    ensures
        crate::text::last_of(dir + "/"@ + name, '/', '/') == Some(dir.len() as int),
    decreases name.len(),
{
    reveal_strlit("/");
    let s = dir + "/"@ + name;
    if name.len() > 0 {
        let p = name.drop_last();
        assert(s.drop_last() =~= dir + "/"@ + p);
        assert(name[name.len() - 1] != '/');
        assert forall|i: int| 0 <= i < p.len() implies p[i] != '/' by {
            assert(name[i] != '/');
        }
        lemma_last_slash(dir, p);
    }
}

proof fn lemma_no_slash(s: Seq<char>)
    requires
        !s.contains('/'),
    ensures
        crate::text::last_of(s, '/', '/') is None,
    decreases s.len(),
{
    if s.len() > 0 {
        let p = s.drop_last();
        assert(s[s.len() - 1] != '/');
        assert forall|i: int| 0 <= i < p.len() implies p[i] != '/' by {
            assert(s[i] != '/');
        }
        lemma_no_slash(p);
    }
}

// ---------------------------------------------------------------- affected files

/// All edges tell of a change everywhere; calls alone only where calls are known in the language of one of the nodes.
pub proof fn law_affected_files_are_told_where_they_are_known(store: Store, hits: Seq<Node>, h: int, i: int)
    ensures
        !is_blind(store, AnalysisMode::TreeSitter, hits),
        0 <= h < hits.len() && crate::text::views(store.call_languages@).contains(hits[h].language@)
            ==> !is_blind(store, AnalysisMode::Semantic, hits),
        0 <= h < hits.len() && 0 <= i < store.edges@.len() && store.edges@[i].kind == EdgeKind::RefCall && (
        store.node(store.edges@[i].src) matches Some(n) && n.language@ == hits[h].language@)
            ==> !is_blind(store, AnalysisMode::Semantic, hits),
{
    if 0 <= h < hits.len() && 0 <= i < store.edges@.len() && store.edges@[i].kind == EdgeKind::RefCall && (
    store.node(store.edges@[i].src) matches Some(n) && n.language@ == hits[h].language@) {
        assert(crate::blast::is_call_in(store, store.edges@[i], hits[h].language@));
    }
}

// ---------------------------------------------------------------- textual search

/// A pattern that is not empty, has at most 4096 bytes and no control character is searched for where the place of the repository is
/// known: everywhere without a scope, and in a path within the repository where that is the scope.
pub proof fn law_valid_patterns_are_searched_for(store: Store, pattern: Seq<char>, scope: Option<&str>)
    requires
        pattern.len() > 0,
        crate::width::blen(pattern) <= 4096,
        forall|i: int|
            0 <= i < pattern.len() ==> #[trigger] pattern[i] > '\u{1f}' && !('\u{7f}' <= pattern[i] <= '\u{9f}'),
        store.meta_value("repo_root"@) matches Some(r) && r.len() > 0,
    ensures
        scope is None ==> plan(store, pattern, scope) == PlanView::Search(Seq::empty()),
        scope matches Some(s) ==> crate::sanitize::arg_ok(s@) && crate::pattern::importing_scope(s@) is None
            && !crate::pattern::leaves_repo(s@) ==> plan(store, pattern, scope) == PlanView::Search(seq![s@]),
        scope matches Some(s) ==> crate::sanitize::arg_ok(s@) ==> (crate::pattern::importing_scope(
            s@,
        ) matches Some(x) ==> crate::sanitize::arg_ok(x) && crate::pattern::confined_importing(store, x).len()
            > 0 ==> plan(store, pattern, scope) == PlanView::Search(
            crate::pattern::confined_importing(store, x),
        )),
{
    assert(!pattern.contains('\0')) by {
        if pattern.contains('\0') {
            let i = choose|i: int| 0 <= i < pattern.len() && pattern[i] == '\0';
            assert(pattern[i] > '\u{1f}');
        }
    }
}

/// A path is confined to the repository where it is relative, in any notation, and has no step to a parent.
pub proof fn law_relative_paths_stay(p: Seq<char>)
    requires
        p.len() > 0,
        p[0] != '/' && p[0] != '\\',
        !crate::split::split(p, '/', '\\').contains(".."@),
        p.len() > 1 ==> p[1] != ':',
    ensures
        !crate::pattern::leaves_repo(p),
{
}

/// The rules of a repository speak of every path below it.
pub proof fn law_rules_speak_of_paths_below(root: Seq<char>, contents: Seq<char>, path: Seq<char>)
    requires
        root.len() > 0,
        path.len() == 0 || path[0] != '/',
        crate::rules::rules_build(root, crate::rules::rule_lines(contents)),
    ensures
        crate::rules::ruling(root, Some(contents), path) == crate::rules::rules_say(
            root,
            crate::rules::rule_lines(contents),
            path,
        ),
        crate::rules::ruling(root, None, path) is None,
{
    reveal_strlit("/");
    if crate::text::starts_with(path, "/"@) {
        assert(path.subrange(0, 0 + "/"@.len() as int)[0] == '/');
    }
}

/// The rules are the lines of the rule file, the first without a byte-order mark.
pub proof fn law_rules_are_lines(contents: Seq<char>, i: int)
    requires
        0 <= i < crate::split::lines(contents).len(),
    ensures
        crate::rules::rule_lines(contents).len() == crate::split::lines(contents).len(),
        i > 0 ==> crate::rules::rule_lines(contents)[i] == crate::split::lines(contents)[i],
        i == 0 && (crate::split::lines(contents)[0].len() == 0 || crate::split::lines(contents)[0][0]
            != '\u{feff}') ==> crate::rules::rule_lines(contents)[0] == crate::split::lines(contents)[0],
        i == 0 && crate::split::lines(contents)[0].len() > 0 && crate::split::lines(contents)[0][0]
            == '\u{feff}' && (crate::split::lines(contents)[0].len() == 1 || crate::split::lines(
            contents,
        )[0][1] != '\u{feff}') ==> crate::rules::rule_lines(contents)[0] == crate::split::lines(
            contents,
        )[0].drop_first(),
{
    reveal_with_fuel(crate::rules::unmarked, 3);
}

/// A rule that starts with an exclamation mark, whatever space is before it, includes files again.
pub proof fn law_exclamation_marks_include_again(contents: Seq<char>, i: int)
    requires
        0 <= i < crate::split::lines(contents).len(),
        crate::split::lines(contents)[i].len() > 1,
        crate::split::lines(contents)[i][0] == '!',
        !crate::split::is_space(crate::split::lines(contents)[i].last()),
    ensures
        crate::pattern::has_negation(contents),
{
    let l = crate::split::lines(contents)[i];
    assert(crate::split::trim_start(l) == l);
    assert(crate::split::trim(l) == l);
    assert(crate::pattern::negates(l));
}

// ---------------------------------------------------------------- drawings

/// A request for an overview is answered with one; a request with an unknown mode or kind, or an invalid query, with nothing; any
/// other with the drawing around what is asked for, at most four steps deep.
pub proof fn law_requests_for_drawings(store: Store, p: GraphJsonParams, head: Option<Seq<char>>)
    ensures
        p.mode@ == "overview"@ && (p.path_prefix@.len() == 0 || crate::sanitize::arg_ok(p.path_prefix@))
            ==> graph_answer(store, p, head) == crate::overview::overview_text(store, p.path_prefix@),
        p.mode@.len() == 0 && (p.kind_filter@.len() == 0 || p.kind_filter@ == "file"@) && (crate::sanitize::arg_ok(
            p.query@,
        ) || p.query@.len() == 0 && p.kind_filter@ == "file"@) ==> graph_answer(store, p, head)
            == crate::graph_json::graph_text(
            store,
            p.query@,
            (Request {
                direction: p.direction@,
                depth: if p.depth < 1 {
                    1
                } else if p.depth > 4 {
                    4
                } else {
                    p.depth as nat
                },
                kind: p.kind_filter@,
                budget: p.token_budget as nat,
            }),
            head,
        ),
{
    reveal_strlit("overview");
    if p.mode@.len() == 0 {
        assert(p.mode@ != "overview"@);
    }
}

/// An overview is that of the components, or of the directory that is named.
pub proof fn law_overviews_by_prefix(store: Store, prefix: Seq<char>)
    requires
        !store.scan_failed,
    ensures
        prefix.len() == 0 ==> crate::overview::overview_text(store, prefix)
            == crate::overview::components_text(store),
        prefix.len() > 0 ==> crate::overview::overview_text(store, prefix) == crate::overview::drill_text(
            store,
            prefix,
        ),
        crate::overview::components(store).tiles.len() > 0 ==> crate::overview::components_text(store)
            == crate::json::json_text(
            crate::json::object(crate::overview::overview_fields(crate::overview::components(store))),
        ),
        crate::overview::drill(store, prefix).tiles.len() > 0 ==> crate::overview::drill_text(store, prefix)
            == crate::json::json_text(
            crate::json::object(
                crate::overview::drill_fields(crate::overview::drill(store, prefix), prefix),
            ),
        ),
{
}

proof fn lemma_with_nodes(old: Seq<NodeView>, more: Seq<NodeView>, id: Seq<char>)
    requires
        id.len() > 0,
    ensures
        crate::graph::has_id(crate::graph_json::with_nodes(old, more), id) <==> crate::graph::has_id(old, id)
            || crate::graph::has_id(more, id),
    decreases more.len(),
{
    if more.len() > 0 {
        let p = more.drop_last();
        let m = crate::graph_json::with_nodes(old, p);
        let n = crate::graph_json::with_nodes(old, more);
        lemma_with_nodes(old, p, id);
        if crate::graph::has_id(p, id) {
            let i = choose|i: int| 0 <= i < p.len() && (#[trigger] p[i]).id == id;
            assert(more[i].id == id);
        }
        if crate::graph::has_id(more, id) {
            let i = choose|i: int| 0 <= i < more.len() && (#[trigger] more[i]).id == id;
            if i < p.len() {
                assert(p[i].id == id);
            }
        }
        if crate::graph::has_id(m, id) {
            let i = choose|i: int| 0 <= i < m.len() && (#[trigger] m[i]).id == id;
            assert(n[i].id == id);
        }
        if crate::graph::has_id(n, id) && !crate::graph::has_id(m, id) {
            let i = choose|i: int| 0 <= i < n.len() && (#[trigger] n[i]).id == id;
            assert(more[more.len() - 1].id == id);
        }
        if more.last().id == id {
            assert(more[more.len() - 1].id == id);
            if !crate::graph::has_id(m, id) {
                assert(n[n.len() - 1].id == id);
            }
        }
    }
}

proof fn lemma_with_edges(old: Seq<EdgeView>, more: Seq<EdgeView>, e: EdgeView)
    requires
        e.source.len() > 0,
    ensures
        crate::graph_json::has_edge(crate::graph_json::with_edges(old, more), e)
            <==> crate::graph_json::has_edge(old, e) || crate::graph_json::has_edge(more, e),
    decreases more.len(),
{
    if more.len() > 0 {
        let p = more.drop_last();
        let m = crate::graph_json::with_edges(old, p);
        let n = crate::graph_json::with_edges(old, more);
        let last = more.last();
        lemma_with_edges(old, p, e);
        if crate::graph_json::has_edge(p, e) {
            let i = choose|i: int|
                0 <= i < p.len() && (#[trigger] p[i]).source == e.source && p[i].target == e.target;
            assert(more[i] == p[i]);
        }
        if crate::graph_json::has_edge(more, e) {
            let i = choose|i: int|
                0 <= i < more.len() && (#[trigger] more[i]).source == e.source && more[i].target == e.target;
            if i < p.len() {
                assert(p[i] == more[i]);
            }
        }
        if crate::graph_json::has_edge(m, e) {
            let i = choose|i: int|
                0 <= i < m.len() && (#[trigger] m[i]).source == e.source && m[i].target == e.target;
            assert(n[i] == m[i]);
        }
        if crate::graph_json::has_edge(n, e) && !crate::graph_json::has_edge(m, e) {
            let i = choose|i: int|
                0 <= i < n.len() && (#[trigger] n[i]).source == e.source && n[i].target == e.target;
            assert(more[more.len() - 1].source == e.source);
        }
        if last.source == e.source && last.target == e.target {
            assert(more[more.len() - 1] == last);
            if !crate::graph_json::has_edge(m, last) {
                assert(n[n.len() - 1] == last);
            } else {
                let i = choose|i: int|
                    0 <= i < m.len() && (#[trigger] m[i]).source == last.source && m[i].target
                        == last.target;
                assert(m[i].source == e.source);
            }
        }
    }
}

/// A drawing over several repositories has every node that a drawing of one of them has, and joins what that joins.
pub proof fn law_merged_drawing_has_every_node_and_edge(
    repos: Seq<Repo>,
    places: Seq<int>,
    n: int,
    query: Seq<char>,
    q: Request,
    k: int,
    store: Store,
)
    requires
        0 <= k < n,
        repos[places[k]].store == Some(store),
        crate::graph_json::start_nodes(store, query, q.kind).len() > 0,
    ensures
        ({
            let w = crate::graph::walked(store, q, crate::graph_json::start_nodes(store, query, q.kind));
            let m = crate::graph_json::merged(repos, places, n, query, q);
            &&& forall|i: int|
                0 <= i < w.nodes.len() && (#[trigger] w.nodes[i]).id.len() > 0 ==> crate::graph::has_id(
                    m.nodes,
                    w.nodes[i].id,
                )
            &&& forall|i: int|
                0 <= i < crate::graph::anchored_edges(w.edges, w.nodes).len() && (
                #[trigger] crate::graph::anchored_edges(w.edges, w.nodes)[i]).source.len() > 0
                    ==> crate::graph_json::has_edge(
                    m.edges,
                    crate::graph::anchored_edges(w.edges, w.nodes)[i],
                )
        }),
    decreases n,
{
    let w = crate::graph::walked(store, q, crate::graph_json::start_nodes(store, query, q.kind));
    let es = crate::graph::anchored_edges(w.edges, w.nodes);
    let before = crate::graph_json::merged(repos, places, n - 1, query, q);
    let m = crate::graph_json::merged(repos, places, n, query, q);
    if k < n - 1 {
        law_merged_drawing_has_every_node_and_edge(repos, places, n - 1, query, q, k, store);
        if let Some(s) = repos[places[n - 1]].store {
            let v = crate::graph::walked(s, q, crate::graph_json::start_nodes(s, query, q.kind));
            let fs = crate::graph::anchored_edges(v.edges, v.nodes);
            assert forall|i: int| 0 <= i < w.nodes.len() && (#[trigger] w.nodes[i]).id.len() > 0 implies crate::graph::has_id(
                m.nodes,
                w.nodes[i].id,
            ) by {
                lemma_with_nodes(before.nodes, v.nodes, w.nodes[i].id);
            }
            assert forall|i: int| 0 <= i < es.len() && (#[trigger] es[i]).source.len() > 0 implies crate::graph_json::has_edge(
                m.edges,
                es[i],
            ) by {
                lemma_with_edges(before.edges, fs, es[i]);
            }
        }
    } else {
        assert forall|i: int| 0 <= i < w.nodes.len() && (#[trigger] w.nodes[i]).id.len() > 0 implies crate::graph::has_id(
            m.nodes,
            w.nodes[i].id,
        ) by {
            lemma_with_nodes(before.nodes, w.nodes, w.nodes[i].id);
            assert(crate::graph::has_id(w.nodes, w.nodes[i].id));
        }
        assert forall|i: int| 0 <= i < es.len() && (#[trigger] es[i]).source.len() > 0 implies crate::graph_json::has_edge(
            m.edges,
            es[i],
        ) by {
            lemma_with_edges(before.edges, es, es[i]);
            assert(crate::graph_json::has_edge(es, es[i]));
        }
    }
}

// ---------------------------------------------------------------- lines around an answer

/// The last line of an answer counts its nodes and what they cost, and the sources that are shown with what these cost.
pub proof fn law_footers_count(v: Seq<crate::picks::Pick>, s: crate::context::Sourced, separate: bool)
    ensures
        crate::context::plain_foot(v) == "["@ + crate::text::dec(v.len()) + " nodes, ~"@ + crate::text::dec(
            crate::picks::total(v),
        ) + " tokens]"@,
        ("["@ + crate::text::dec(v.len()) + " nodes, "@ + crate::text::dec(s.count) + " with snippets, ~"@
            + crate::text::dec(crate::picks::total(v)) + " metadata-tokens + ~"@ + crate::text::dec(s.tokens)
            + " snippet-tokens ("@).is_prefix_of(crate::context::source_foot(v, s, separate)),
        crate::picks::cost(v) <= usize::MAX ==> crate::picks::total(v) == crate::picks::cost(v),
{
    let p = "["@ + crate::text::dec(v.len()) + " nodes, "@ + crate::text::dec(s.count)
        + " with snippets, ~"@ + crate::text::dec(crate::picks::total(v)) + " metadata-tokens + ~"@
        + crate::text::dec(s.tokens) + " snippet-tokens ("@;
    let t = crate::context::source_foot(v, s, separate);
    assert(t.subrange(0, p.len() as int) =~= p);
}

/// The first lines of an answer tell the commit of the index, how the semantic search did, which searches gave the seeds, and how many
/// of the terms were matched.
pub proof fn law_head_lines_tell_the_search(store: Store, run: crate::retrieval::Retrieval)
    ensures
        ({
            let t = crate::context::head_lines(store, run);
            let status = match run.embed {
                Some(e) => if e.elapsed_ms > e.budget_ms {
                    "degraded"@
                } else if !e.ready {
                    "warming"@
                } else {
                    "on"@
                },
                None => "off"@,
            };
            let commit = match store.meta_value("last_commit"@) {
                Some(c) => c,
                None => "unknown"@,
            };
            let tier = if run.embed is Some && run.seeds.seeds@.len() > 0 {
                "exact+lexical+semantic"@
            } else {
                "exact+lexical"@
            };
            t == "[index commit: "@ + commit + ", embeddings: "@ + status + "]\n"@ + "[retrieval: "@ + tier
                + " | coverage "@ + crate::text::dec(run.seeds.resolved@.filter(|b: bool| b).len()) + "/"@
                + crate::text::dec(run.seeds.resolved@.len()) + " | confidence: "@ + run.seeds.label@
                + " ]\n"@
        }),
{
    lemma_count_true(run.seeds.resolved@);
}

proof fn lemma_count_true(v: Seq<bool>)
    ensures
        crate::context::count_true(v) == v.filter(|b: bool| b).len(),
    decreases v.len(),
{
    reveal(Seq::filter);
    if v.len() > 0 {
        lemma_count_true(v.drop_last());
    }
}

/// A trace tells the calibration, the raw findings, the confidence and the seeds, in this order.
pub proof fn law_traces_tell_every_stage(store: Store, query: Seq<char>, t: crate::trace::Trace)
    requires
        crate::sanitize::arg_ok(query),
    ensures
        ({
            let x = crate::trace::traced(store, query, Some(t));
            &&& ("CAL\t"@ + t.lo@ + "\t"@ + t.hi@ + "\n"@ + crate::trace::numbered(
                store,
                t.raw@,
                "RAWKNN\t"@,
            )).is_prefix_of(x)
            &&& holds(x, "CONF\t"@ + t.confidence@ + "\n"@ + crate::trace::seed_lines(store, t.seeds@))
            &&& crate::trace::traced(store, query, None)
                == "[embed KNN unavailable, embeddings not wired]"@
        }),
{
    let x = crate::trace::traced(store, query, Some(t));
    let head = "CAL\t"@ + t.lo@ + "\t"@ + t.hi@ + "\n"@ + crate::trace::numbered(store, t.raw@, "RAWKNN\t"@);
    let knn = crate::trace::knn_lines(
        store,
        crate::seeds::first(
            crate::seeds::eligible(store, t.hits@, Seq::empty()),
            crate::seeds::MAX_EMBED_SEEDS as nat,
        ),
        t.hit_scores@,
    );
    let tail = "CONF\t"@ + t.confidence@ + "\n"@ + crate::trace::seed_lines(store, t.seeds@);
    assert(x =~= head + knn + tail);
    assert(x.subrange(0, head.len() as int) =~= head);
    crate::lines::lemma_holds_itself(head + knn, tail, Seq::empty());
}

// ---------------------------------------------------------------- which nodes count

/// A node is never an answer where it is noise, a package or a file.
pub proof fn law_noise_is_no_answer(n: Node)
    ensures
        crate::noise::result_noise(n) <==> n.is_noise || n.kind@ == "package"@ || n.kind@ == "file"@
            || crate::text::starts_with(n.signature@, "pkg:"@),
        crate::noise::anchor_noise(n) <==> crate::noise::result_noise(n) || n.is_test
            || crate::noise::test_symbol(n),
{
}

/// A function whose name starts with `test_` is a test, whatever its container.
pub proof fn law_test_names_are_tests(n: Node, container: Seq<char>, rest: Seq<char>)
    requires
        n.kind@ == "function"@ || n.kind@ == "method"@,
        n.signature@ == container + ":"@ + "test_"@ + rest,
        !rest.contains('#') && !rest.contains(':'),
    ensures
        crate::noise::test_symbol(n),
{
    reveal_strlit(":");
    reveal_strlit("test_");
    let name = "test_"@ + rest;
    assert(n.signature@ =~= container.push(':') + name);
    assert(!name.contains('#') && !name.contains(':')) by {
        assert forall|i: int| 0 <= i < name.len() implies name[i] != '#' && name[i] != ':' by {
            if i >= 5 {
                assert(rest.contains(rest[i - 5]));
            }
        }
    }
    crate::text_laws::law_after_last_is_the_rest(container, ':', name, '#', ':');
    let l = crate::split::lower(name);
    assert(l.subrange(0, 0 + "test_"@.len() as int) =~= "test_"@);
}

/// Functions and methods count double, types half again as much, constants a fifth more, fields less, imports little.
pub proof fn law_kinds_weigh_differently(language: Seq<char>)
    ensures
        crate::noise::boost("function"@, language) == 200,
        crate::noise::boost("method"@, language) == 200,
        crate::noise::boost("constructor"@, language) == 200,
        crate::noise::boost("class"@, language) == 150,
        crate::noise::boost("struct"@, language) == 150,
        crate::noise::boost("interface"@, language) == 150,
        crate::noise::boost("enum"@, language) == 150,
        crate::noise::boost("trait"@, language) == 150,
        crate::noise::boost("constant"@, language) == 120,
        crate::noise::boost("field"@, language) == 70,
        crate::noise::boost("import"@, language) == 30,
{
    reveal_strlit("function");
    reveal_strlit("method");
    reveal_strlit("constructor");
    reveal_strlit("class");
    reveal_strlit("struct");
    reveal_strlit("interface");
    reveal_strlit("enum");
    reveal_strlit("trait");
    reveal_strlit("union");
    reveal_strlit("constant");
    reveal_strlit("static");
    reveal_strlit("field");
    reveal_strlit("var");
    reveal_strlit("variable");
    reveal_strlit("property");
    reveal_strlit("import");
    assert("class"@.len() == 5 && "struct"@.len() == 6 && "interface"@.len() == 9 && "enum"@.len() == 4
        && "trait"@.len() == 5 && "union"@.len() == 5 && "constant"@.len() == 8 && "static"@.len() == 6
        && "field"@.len() == 5 && "var"@.len() == 3 && "variable"@.len() == 8 && "property"@.len() == 8
        && "import"@.len() == 6 && "function"@.len() == 8 && "method"@.len() == 6 && "constructor"@.len()
        == 11);
    assert("struct"@[0] != "method"@[0]);
    assert("constant"@[0] != "function"@[0]);
    assert("field"@[0] != "class"@[0] && "field"@[0] != "trait"@[0] && "field"@[0] != "union"@[0]);
    assert("import"@[0] != "method"@[0] && "import"@[0] != "struct"@[0] && "import"@[0] != "static"@[0]);
}

/// A caller that is added to the seeds has thirty-five hundredths of the weight of its seed.
pub proof fn law_added_callers_weigh_less(
    store: Store,
    seed: crate::seeds::Weighted,
    seeds: Seq<crate::seeds::Weighted>,
    i: int,
)
    requires
        0 <= i < crate::seeds::additions(store, seed, seeds).len(),
    ensures
        crate::seeds::additions(store, seed, seeds)[i].weight == seed.weight * 35 / 100,
        crate::seeds::additions(store, seed, seeds).len() <= 5,
{
    let w = seed.weight as int;
    assert(w * 35 / 100 <= w) by (nonlinear_arith)
        requires
            w >= 0,
    ;
}

/// A member is qualified by its container where the two stand joined by a dot or a hash, and no letter, digit or underscore before.
pub proof fn law_containers_stand_before_members(signature: Seq<char>, container: Seq<char>, member: Seq<char>)
    ensures
        crate::names::qualified(signature, container, member) <==> exists|p: int|
            is_qualified_at(signature, container, member, p),
{
    reveal_strlit(".");
    reveal_strlit("#");
    let a = container + "."@ + member;
    let b = container + "#"@ + member;
    assert(a.len() == container.len() + 1 + member.len());
    assert(b.len() == a.len());
    if crate::names::anchored(signature, a) {
        let p = choose|p: int| crate::names::anchored_at(signature, a, p);
        assert(is_qualified_at(signature, container, member, p));
    }
    if crate::names::anchored(signature, b) {
        let p = choose|p: int| crate::names::anchored_at(signature, b, p);
        assert(is_qualified_at(signature, container, member, p));
    }
    if exists|p: int| is_qualified_at(signature, container, member, p) {
        let p = choose|p: int| is_qualified_at(signature, container, member, p);
        if signature.subrange(p, p + a.len()) == a {
            assert(crate::names::anchored_at(signature, a, p));
        } else {
            assert(crate::names::anchored_at(signature, b, p));
        }
    }
}

/// The container stands before the member at that place.
pub open spec fn is_qualified_at(
    signature: Seq<char>,
    container: Seq<char>,
    member: Seq<char>,
    p: int,
) -> bool {
    let n = container.len() + 1 + member.len();
    &&& 0 <= p && p + n <= signature.len()
    &&& signature.subrange(p, p + n) == container + "."@ + member || signature.subrange(p, p + n)
        == container + "#"@ + member
    &&& p == 0 || !('a' <= signature[p - 1] <= 'z' || 'A' <= signature[p - 1] <= 'Z' || '0'
        <= signature[p - 1] <= '9' || signature[p - 1] == '_')
}

/// A list of symbols is valid where it has at most 65,536 bytes and holds neither NUL nor a step to a parent; a pattern where it has at
/// most 4096 bytes and no NUL.
pub proof fn law_valid_lists_and_patterns(s: Seq<char>)
    ensures
        crate::sanitize::list_verdict(s) is Ok <==> crate::width::blen(s) <= 65_536 && !s.contains('\0')
            && !crate::text::contains(s, "../"@),
        crate::sanitize::pattern_verdict(s) is Ok <==> crate::width::blen(s) <= 4096 && !s.contains('\0'),
{
}

// ---------------------------------------------------------------- where nothing is found

/// A walk starts from the hits for what is asked for; for all files, from those for everything with an extension.
pub proof fn law_drawings_start_from_the_hits(store: Store, query: Seq<char>, kind: Seq<char>, hits: Seq<Node>)
    ensures
        !(kind == "file"@ && query.len() == 0) && store.name_hits(query) == Some(hits)
            ==> crate::graph_json::start_nodes(store, query, kind) == crate::graph::roots(hits, query, kind),
        kind == "file"@ && query.len() == 0 && store.name_hits("."@) == Some(hits)
            ==> crate::graph_json::start_nodes(store, query, kind) == crate::graph::roots(hits, query, kind),
{
}

/// A search without matches is answered with nothing, but for a hint where the pattern holds a construct of another syntax.
pub proof fn law_no_matches_may_have_a_hint(pattern: Seq<char>)
    ensures
        ({
            let t = crate::pattern::outcome_text(crate::pattern::OutcomeView::NoMatches, pattern);
            let foreign = crate::text::contains(pattern, "\\b"@) || crate::text::contains(pattern, "\\B"@)
                || crate::text::contains(pattern, "\\d"@) || crate::text::contains(pattern, "\\D"@)
                || crate::text::contains(pattern, "\\w"@) || crate::text::contains(pattern, "\\W"@)
                || crate::text::contains(pattern, "\\s"@) || crate::text::contains(pattern, "\\S"@)
                || crate::text::contains(pattern, "(?"@);
            &&& foreign ==> ("no matches. note: `"@).is_prefix_of(t)
            &&& !foreign ==> t.len() == 0
        }),
{
    reveal_strlit("no matches. ");
    reveal_strlit("note: `");
    reveal_strlit("no matches. note: `");
    let t = crate::pattern::outcome_text(crate::pattern::OutcomeView::NoMatches, pattern);
    if let Some(c) = crate::pattern::foreign_construct(pattern) {
        let n = "no matches. note: `"@.len() as int;
        assert("no matches. "@ + "note: `"@ =~= "no matches. note: `"@);
        assert(t.subrange(0, n) =~= "no matches. "@ + "note: `"@);
    }
}

/// Snippets are not to be had where the place of the repository is not known; a request that names nothing gives nothing, and one whose
/// symbols are unknown says so.
pub proof fn law_snippets_that_are_not_to_be_had(
    store: Store,
    symbols: Seq<char>,
    budget: nat,
    mode: crate::snippets::SnippetMode,
)
    ensures
        ({
            let t = crate::snippets::snippets(store, symbols, budget, mode);
            let rooted = store.meta_value("repo_root"@) matches Some(r) && r.len() > 0;
            let ts = crate::snippets::tokens(symbols);
            &&& !rooted ==> t == "Snippet data unavailable: run `travsr init` to refresh the index."@
            &&& rooted && ts.len() == 0 ==> t.len() == 0
            &&& rooted && ts.len() > 0 && crate::snippets::all_denoted(store, ts).len() == 0 ==> t
                == "No symbols matching the provided names found in the graph."@
        }),
{
}

/// A map without nodes hints at indexing; without symbols, or where the nodes cannot be read, there is none.
pub proof fn law_maps_of_nothing(store: Store, reserve: nat)
    ensures
        store.scan_failed ==> crate::repo_map::repo_map(store, reserve).len() == 0,
        !store.scan_failed && store.nodes@.len() == 0 ==> crate::repo_map::repo_map(store, reserve)
            == "Repo not indexed by Travsr. Run `travsr init` to build the graph."@,
{
}

} // verus!
