//! Laws on hints, scores, headings and messages.

use vstd::prelude::*;

use crate::docs::{cited, scored, texted, DocLane, DocScore};
use crate::lines::holds;
use crate::seeds::{text_seeds, KnnHit, Weighted};
use crate::store::{Node, Store};

verus! {

// ---------------------------------------------------------------- definitions

/// A path hint fits the path itself, and every path that ends in it behind a slash.
pub proof fn law_path_hints_fit_at_directories(dir: Seq<char>, hint: Seq<char>)
    ensures
        crate::refs::at_path(hint, hint),
        crate::refs::at_path(dir + "/"@ + hint, hint),
{
    let p = dir + "/"@ + hint;
    let t = "/"@ + hint;
    assert(p =~= dir + t);
    assert(p.subrange(p.len() - t.len(), p.len() - t.len() + t.len()) =~= t);
}

/// What a path hint fits has it as its end.
pub proof fn law_path_hints_fit_nothing_else(path: Seq<char>, hint: Seq<char>)
    requires
        crate::refs::at_path(path, hint),
    ensures
        path == hint || (path.len() > hint.len() && path.skip(path.len() - hint.len()) == hint
            && path[path.len() - hint.len() - 1] == '/'),
{
    reveal_strlit("/");
    if path != hint {
        let t = "/"@ + hint;
        let s = path.subrange(path.len() - t.len(), path.len() - t.len() + t.len());
        assert(s == t);
        assert(s[0] == '/');
        assert(path.skip(path.len() - hint.len()) =~= s.skip(1));
        assert(t.skip(1) =~= hint);
    }
}

/// Headers of C and C++ are told by their extension, whatever its case.
pub proof fn law_headers_by_extension(stem: Seq<char>)
    ensures
        crate::refs::is_header(stem + ".h"@),
        crate::refs::is_header(stem + ".hpp"@),
        crate::refs::is_header(stem + ".hh"@),
        crate::refs::is_header(stem + ".hxx"@),
        crate::refs::is_header(stem + ".H"@),
{
    reveal_strlit(".h");
    reveal_strlit(".hpp");
    reveal_strlit(".hh");
    reveal_strlit(".hxx");
    reveal_strlit(".H");
    lemma_lower_end(stem, ".h"@);
    lemma_lower_end(stem, ".hpp"@);
    lemma_lower_end(stem, ".hh"@);
    lemma_lower_end(stem, ".hxx"@);
    let p = crate::split::lower(stem + ".H"@);
    assert(p.subrange(p.len() - 2, p.len() - 2 + 2) =~= ".h"@);
}

proof fn lemma_lower_end(stem: Seq<char>, ext: Seq<char>)
    requires
        forall|i: int| 0 <= i < ext.len() ==> crate::split::lower_char(#[trigger] ext[i]) == ext[i],
    ensures
        crate::text::ends_with(crate::split::lower(stem + ext), ext),
{
    let p = crate::split::lower(stem + ext);
    assert(p.subrange(p.len() - ext.len(), p.len() - ext.len() + ext.len()) =~= ext);
}

/// A path is of the repository where it is neither empty nor outside, absolute, synthetic or behind a protocol.
pub proof fn law_local_paths(p: Seq<char>)
    ensures
        crate::regions::is_local(p) <==> p.len() > 0 && p[0] != '/' && p[0] != '<' && !(p.len() > 1 && p[0] == '.'
            && p[1] == '.') && !crate::text::contains(p, "://"@),
{
    reveal_strlit("/");
    reveal_strlit("<");
    reveal_strlit("..");
    if p.len() > 0 {
        if p[0] == '/' {
            assert(p.subrange(0, 1) =~= "/"@);
        }
        if p[0] == '<' {
            assert(p.subrange(0, 1) =~= "<"@);
        }
        if p.len() > 1 && p[0] == '.' && p[1] == '.' {
            assert(p.subrange(0, 2) =~= ".."@);
        }
        if crate::text::starts_with(p, "/"@) {
            assert(p.subrange(0, 0 + "/"@.len() as int)[0] == '/');
        }
        if crate::text::starts_with(p, "<"@) {
            assert(p.subrange(0, 0 + "<"@.len() as int)[0] == '<');
        }
        if crate::text::starts_with(p, ".."@) {
            let s = p.subrange(0, 0 + ".."@.len() as int);
            assert(s[0] == '.' && s[1] == '.');
        }
    }
}

// ---------------------------------------------------------------- seeds and citations

/// The seeds of a walk are those of the query with up to fifteen callers, and up to ten callers of all these, without those that
/// another leads to.
pub proof fn law_walks_start_from_seeds_and_callers(store: Store, set: crate::retrieval::SeedSet)
    ensures
        crate::context::start(store, set) == crate::seeds::apart(
            store,
            crate::seeds::enriched(store, crate::seeds::enriched(store, set.weighted@, 15), 10),
        ),
        forall|id: u64| #[trigger]
            crate::context::primary(set).contains(id) <==> crate::seeds::has_id(set.weighted@, id),
{
    lemma_distinct(set.weighted@);
}

proof fn lemma_distinct(v: Seq<Weighted>)
    ensures
        forall|id: u64| #[trigger]
            crate::seeds::distinct_ids(v).contains(id) <==> crate::seeds::has_id(v, id),
    decreases v.len(),
{
    if v.len() > 0 {
        let p = v.drop_last();
        let d = crate::seeds::distinct_ids(p);
        lemma_distinct(p);
        assert forall|id: u64| #[trigger]
            crate::seeds::distinct_ids(v).contains(id) <==> crate::seeds::has_id(v, id) by {
            crate::store::lemma_push_contains(d, v.last().id, id);
            assert(d.contains(id) <==> crate::seeds::has_id(p, id));
            if crate::seeds::has_id(p, id) {
                let i = choose|i: int| 0 <= i < p.len() && (#[trigger] p[i]).id == id;
                assert(v[i].id == id);
            }
            if crate::seeds::has_id(v, id) {
                let i = choose|i: int| 0 <= i < v.len() && (#[trigger] v[i]).id == id;
                if i < p.len() {
                    assert(p[i].id == id);
                }
            }
            if v.last().id == id {
                assert(v[v.len() - 1].id == id);
            }
        }
    }
}

proof fn lemma_scored(ids: Seq<u64>, scores: Seq<DocScore>, i: int)
    requires
        0 <= i < scores.len(),
        scores[i].clears_floor,
    ensures
        scored(ids, scores).contains(Weighted { id: ids[i], weight: scores[i].weight }),
    decreases scores.len(),
{
    let p = scores.drop_last();
    let last = Weighted { id: ids[scores.len() - 1], weight: scores.last().weight };
    crate::store::lemma_push_contains(
        scored(ids, p),
        last,
        Weighted { id: ids[i], weight: scores[i].weight },
    );
    if i < p.len() {
        assert(p[i] == scores[i]);
        lemma_scored(ids, p, i);
    }
}

proof fn lemma_scored_len(ids: Seq<u64>, scores: Seq<DocScore>)
    ensures
        scored(ids, scores).len() <= scores.len(),
    decreases scores.len(),
{
    if scores.len() > 0 {
        lemma_scored_len(ids, scores.drop_last());
    }
}

/// Where the reranker is asked and scored every section whose text is known, its scores decide: every section above its floor is cited,
/// as far as so many may be.
pub proof fn law_reranked_sections_are_cited(lane: DocLane, scores: Seq<DocScore>, i: int)
    requires
        !lane.confident,
        lane.scores matches Some(s) && s@ == scores,
        scores.len() == texted(lane.candidates@).len(),
        scores.len() <= lane.max_results,
        0 <= i < scores.len(),
        scores[i].clears_floor,
    ensures
        cited(lane).contains(Weighted { id: texted(lane.candidates@)[i], weight: scores[i].weight }),
{
    let ids = texted(lane.candidates@);
    let v = scored(ids, scores);
    lemma_scored(ids, scores, i);
    lemma_scored_len(ids, scores);
    crate::seed_laws::law_heaviest_come_first(v);
    let w = Weighted { id: ids[i], weight: scores[i].weight };
    assert(v.contains(w));
    assert(crate::seeds::heaviest(v).contains(w));
    assert(cited(lane) == crate::seeds::heaviest(v));
}

/// Of a name with a dot what follows it is searched for, and what stands before must be in the signature.
pub proof fn law_dotted_queries_ask_for_the_qualifier(
    store: Store,
    qualifier: Seq<char>,
    name: Seq<char>,
    denied: Seq<u64>,
    i: int,
)
    requires
        qualifier.len() > 0,
        name.len() > 0,
        !name.contains('.'),
        0 <= i < text_seeds(store, qualifier + "."@ + name, denied).len(),
    ensures
        crate::seeds::qualified_name(qualifier + "."@ + name) == (qualifier, name),
        exists|n: Node| #[trigger]
            crate::seeds::text_hits(store, name).0.contains(n) && n.id == text_seeds(
                store,
                qualifier + "."@ + name,
                denied,
            )[i].id && crate::text::contains(n.signature@, qualifier) && !n.is_noise && !denied.contains(n.id),
{
    let query = qualifier + "."@ + name;
    crate::answer_laws::lemma_last_dot(qualifier, name);
    reveal_strlit(".");
    assert(query.take(qualifier.len() as int) =~= qualifier);
    assert(query.skip(qualifier.len() as int + 1) =~= name);
    let hits = crate::seeds::text_hits(store, name).0;
    let p = crate::seeds::seedable(qualifier, denied);
    crate::store::lemma_kept(hits, p);
    let kept = crate::store::kept(hits, p);
    let n = kept[i];
    assert(kept.contains(n));
    assert(hits.contains(n) && p(n));
}

/// Every seed that the semantic search gives has a line in a trace.
pub proof fn law_semantic_seeds_are_traced(
    store: Store,
    seeds: Seq<KnnHit>,
    scores: Seq<crate::trace::Row>,
    i: int,
    n: Node,
)
    requires
        0 <= i < seeds.len(),
        store.node(seeds[i].id) == Some(n),
    ensures
        holds(
            crate::trace::knn_lines(store, seeds, scores),
            "KNNSEED\t"@ + crate::trace::score_of(scores, seeds[i].id) + "\t"@ + n.signature@ + "\t"@ + n.path@,
        ),
    decreases seeds.len(),
{
    let p = seeds.drop_last();
    let rest = crate::trace::knn_lines(store, p, scores);
    let x = "KNNSEED\t"@ + crate::trace::score_of(scores, seeds[i].id) + "\t"@ + n.signature@ + "\t"@ + n.path@;
    if i < p.len() {
        assert(p[i] == seeds[i]);
        law_semantic_seeds_are_traced(store, p, scores, i, n);
        if let Some(m) = store.node(seeds.last().id) {
            crate::lines::lemma_holds_around(
                Seq::empty(),
                rest,
                "KNNSEED\t"@ + crate::trace::score_of(scores, seeds.last().id) + crate::trace::node_tail(m),
                x,
            );
        }
    } else {
        let tail = crate::callers::line_suffix(n.line) + "\n"@;
        let own = "KNNSEED\t"@ + crate::trace::score_of(scores, seeds.last().id) + crate::trace::node_tail(n);
        assert(own =~= x + tail);
        crate::lines::lemma_holds_itself(rest, x, tail);
        assert(rest + own =~= rest + x + tail);
    }
}

// ---------------------------------------------------------------- lines

/// Sections have their headings.
pub proof fn law_sections_have_their_headings()
    ensures
        crate::sections::heading(crate::sections::MatchSource::Exact)
            == "## exact matches, literal symbol / text (not relevance-ranked)"@,
        crate::sections::heading(crate::sections::MatchSource::Semantic)
            == "## related, ranked by relevance"@,
        crate::sections::heading(crate::sections::MatchSource::Docs)
            == "## docs (documentation prose: claims about the code, verify behaviour against the code itself)"@,
        crate::sections::heading(crate::sections::MatchSource::Tests)
            == "## tests, test entry points & fixtures"@,
        crate::sections::heading(crate::sections::MatchSource::Relevant)
            == "## relevant, graph-adjacent context"@,
        crate::sections::MatchSource::Exact.rank() < crate::sections::MatchSource::Semantic.rank(),
        crate::sections::MatchSource::Semantic.rank() < crate::sections::MatchSource::Docs.rank(),
        crate::sections::MatchSource::Docs.rank() < crate::sections::MatchSource::Tests.rank(),
        crate::sections::MatchSource::Tests.rank() < crate::sections::MatchSource::Relevant.rank(),
{
}

/// The line of a file on the map names its first five symbols in order, and counts the others.
pub proof fn law_file_lines_name_five_symbols(syms: Seq<Node>, path: Seq<char>, i: int)
    requires
        0 <= i < crate::repo_map::file_names(syms, path).len(),
        i < 5,
    ensures
        holds(crate::repo_map::file_line(syms, path), crate::repo_map::file_names(syms, path)[i]),
        crate::repo_map::file_names(syms, path).len() > 5 ==> holds(
            crate::repo_map::file_line(syms, path),
            ", \u{2026} (+"@ + crate::text::dec((crate::repo_map::file_names(syms, path).len() - 5) as nat)
                + ")"@,
        ),
{
    let names = crate::repo_map::file_names(syms, path);
    let shown = if names.len() > 5 {
        names.take(5)
    } else {
        names
    };
    let list = crate::text::join(shown, ", "@);
    assert(shown[i] == names[i]);
    crate::lines::lemma_join_holds(shown, ", "@, i);
    let noun = if names.len() == 1 {
        " symbol]  "@
    } else {
        " symbols]  "@
    };
    let a = "  "@ + path + "  ["@ + crate::text::dec(names.len()) + noun;
    let left = crate::repo_map::names_left(names.len());
    let l = crate::repo_map::file_line(syms, path);
    assert(l =~= a + list + left + "\n"@);
    crate::lines::lemma_holds_around(a, list, left + "\n"@, names[i]);
    assert(a + list + (left + "\n"@) =~= l);
    if names.len() > 5 {
        reveal_strlit(", \u{2026} (+");
        reveal_strlit(", … (+");
        assert(", \u{2026} (+"@ =~= ", … (+"@);
        crate::lines::lemma_holds_itself(a + list, left, "\n"@);
    }
}

/// A place without an end stands for forty lines.
pub proof fn law_places_without_an_end_are_forty_lines(store: Store, path: Seq<char>, start: nat)
    requires
        start + 39 <= u32::MAX,
    ensures
        ({
            let d = crate::snippets::denoted(
                store,
                crate::snippets::TokenView::PathLine { path, start, end: None },
            );
            d.len() == 1 && d[0].line == Some(start as u32) && d[0].end_line == Some((start + 39) as u32)
        }),
{
}

/// The decimal form of thousandths has what is before the point, and digits that stand for the thousandths.
pub proof fn law_scores_are_decimals(t: nat)
    requires
        t < 1000,
    ensures
        ({
            let s = crate::graph_json::decimal(t);
            let n = s.len();
            &&& 3 <= n <= 5 && ("0."@).is_prefix_of(s)
            &&& n == 5 ==> crate::text_laws::reads_as(s.skip(2)) == t
            &&& n == 4 ==> 10 * crate::text_laws::reads_as(s.skip(2)) == t
            &&& n == 3 ==> 100 * crate::text_laws::reads_as(s.skip(2)) == t
        }),
        crate::graph_json::decimal(1000) == "1.0"@,
{
    reveal_strlit("0.");
    reveal_with_fuel(crate::text_laws::reads_as, 4);
    let s = crate::graph_json::decimal(t);
    assert(s.subrange(0, 2) =~= "0."@);
    let d = s.skip(2);
    let (x, y, z) = (t / 100 % 10, t / 10 % 10, t % 10);
    assert(t == 100 * x + 10 * y + z);
    if z != 0 {
        assert(d =~= seq![crate::text::digit(x), crate::text::digit(y), crate::text::digit(z)]);
        assert(d.drop_last() =~= seq![crate::text::digit(x), crate::text::digit(y)]);
        assert(d.drop_last().drop_last() =~= seq![crate::text::digit(x)]);
        assert(d.drop_last().drop_last().drop_last() =~= Seq::<char>::empty());
    } else if y != 0 {
        assert(d =~= seq![crate::text::digit(x), crate::text::digit(y)]);
        assert(d.drop_last() =~= seq![crate::text::digit(x)]);
        assert(d.drop_last().drop_last() =~= Seq::<char>::empty());
    } else {
        assert(d =~= seq![crate::text::digit(x)]);
        assert(d.drop_last() =~= Seq::<char>::empty());
    }
}

// ---------------------------------------------------------------- messages

/// Where an end of a path cannot be found, or nothing connects the two, an answer that may give reasons tells so.
pub proof fn law_missing_paths_are_explained(
    store: Store,
    source: Seq<char>,
    sink: Seq<char>,
    denied: Seq<u64>,
    xs: Seq<Node>,
    ys: Seq<Node>,
)
    requires
        store.name_hits(source) == Some(xs),
        store.name_hits(sink) == Some(ys),
    ensures
        ({
            let t = crate::exec_path::chain(store, source, sink, denied, true);
            let (a, b) = (
                crate::exec_path::first_allowed(xs, denied),
                crate::exec_path::first_allowed(ys, denied),
            );
            &&& a is None || b is None ==> holds(
                t,
                "could not resolve source '"@ + source + "' and/or sink '"@ + sink + "'"@,
            )
            &&& a is Some && b is Some ==> (crate::exec_path::path_of(
                store.path_answers@,
                a->0.id,
                b->0.id,
            ) matches Some(nodes) ==> !crate::exec_path::reaches(nodes, b->0.id) ==> holds(
                t,
                "no path found: '"@ + a->0.signature@ + "' and '"@ + b->0.signature@ + "'"@,
            ))
        }),
{
    let t = crate::exec_path::chain(store, source, sink, denied, true);
    let (a, b) = (
        crate::exec_path::first_allowed(xs, denied),
        crate::exec_path::first_allowed(ys, denied),
    );
    reveal_strlit("'");
    if a is None || b is None {
        let x = "could not resolve source '"@ + source + "' and/or sink '"@ + sink + "'"@;
        reveal_strlit(
            "', verify the names with search_symbol, or pass full signatures (e.g. fn:charge).",
        );
        let y = "', verify the names with search_symbol, or pass full signatures (e.g. fn:charge)."@;
        assert(y.subrange(0, 1) =~= "'"@);
        assert(t.subrange(0int, 0int + x.len()) =~= x) by {
            let head = "could not resolve source '"@ + source + "' and/or sink '"@ + sink;
            assert(t == head + y);
            assert((head + y).subrange(0, x.len() as int) =~= head + y.subrange(0, 1));
        }
    } else if let Some(nodes) = crate::exec_path::path_of(store.path_answers@, a->0.id, b->0.id) {
        if !crate::exec_path::reaches(nodes, b->0.id) {
            let x = "no path found: '"@ + a->0.signature@ + "' and '"@ + b->0.signature@ + "'"@;
            reveal_strlit(
                "' both resolved, but no connecting call chain was found within traversal limits.",
            );
            let y = "' both resolved, but no connecting call chain was found within traversal limits."@;
            assert(y.subrange(0, 1) =~= "'"@);
            assert(t.subrange(0int, 0int + x.len()) =~= x) by {
                let head = "no path found: '"@ + a->0.signature@ + "' and '"@ + b->0.signature@;
                assert(t == head + y);
                assert((head + y).subrange(0, x.len() as int) =~= head + y.subrange(0, 1));
            }
        }
    }
}

/// An argument that is no file is told to be none: a hint names what it resolved to, or that nothing matched.
pub proof fn law_arguments_that_are_no_files_are_told(store: Store, file: Seq<char>, hits: Seq<Node>)
    requires
        store.name_hits(file) == Some(hits),
        forall|j: int| 0 <= j < hits.len() ==> (#[trigger] hits[j]).kind@ != "file"@,
    ensures
        hits.len() > 0 ==> (crate::deps::arg_hint(store, file) matches Some(t) && ("'"@ + file
            + "' resolved to "@ + hits[0].kind@ + " '"@ + hits[0].signature@).is_prefix_of(t)),
        hits.len() == 0 ==> (crate::deps::arg_hint(store, file) matches Some(t) && ("no file matched '"@
            + file).is_prefix_of(t)),
{
    lemma_no_file(hits);
    let t = crate::deps::arg_hint(store, file)->0;
    if hits.len() > 0 {
        let p = "'"@ + file + "' resolved to "@ + hits[0].kind@ + " '"@ + hits[0].signature@;
        assert(t.subrange(0, p.len() as int) =~= p);
    } else {
        let p = "no file matched '"@ + file;
        assert(t.subrange(0, p.len() as int) =~= p);
    }
}

proof fn lemma_no_file(hits: Seq<Node>)
    requires
        forall|j: int| 0 <= j < hits.len() ==> (#[trigger] hits[j]).kind@ != "file"@,
    ensures
        crate::deps::first_file(hits) is None,
    decreases hits.len(),
{
    if hits.len() > 0 {
        let p = hits.drop_last();
        assert forall|j: int| 0 <= j < p.len() implies (#[trigger] p[j]).kind@ != "file"@ by {
            assert(p[j] == hits[j]);
        }
        lemma_no_file(p);
        assert(hits[hits.len() - 1].kind@ != "file"@);
    }
}

// ---------------------------------------------------------------- uses that are not recorded

proof fn lemma_no_calls(edges: Seq<crate::store::Edge>)
    requires
        forall|j: int|
            0 <= j < edges.len() ==> (#[trigger] edges[j]).kind != crate::store::EdgeKind::RefCall,
    ensures
        crate::refs::call_sources(edges).len() == 0,
    decreases edges.len(),
{
    if edges.len() > 0 {
        let p = edges.drop_last();
        assert forall|j: int| 0 <= j < p.len() implies (#[trigger] p[j]).kind
            != crate::store::EdgeKind::RefCall by {
            assert(p[j] == edges[j]);
        }
        lemma_no_calls(p);
        assert(edges[edges.len() - 1].kind != crate::store::EdgeKind::RefCall);
    }
}

/// A definition without uses and callers has an answer that tells which definition it is, and how sure the zero is: not where its
/// language or its file has no index of uses, nor where the packages of a Dart project are unresolved.
pub proof fn law_zeros_tell_how_sure_they_are(store: Store, n: Node)
    requires
        !store.unread_incoming@.contains(n.id),
        forall|j: int|
            0 <= j < store.arriving(n.id).len() ==> (#[trigger] store.arriving(n.id)[j]).kind
                != crate::store::EdgeKind::RefCall,
    ensures
        ({
            let t = crate::refs::fallback(store, n);
            let language_known = crate::text::views(store.occurrence_languages@).contains(n.language@);
            let file_known = crate::text::views(store.occurrence_files@).contains(n.path@);
            let dart_open = n.language@ == "dart"@ && (store.meta_value("dart_deps_unresolved"@) matches Some(v)
                && v.len() > 0);
            &&& ("resolved: "@ + n.signature@ + " ("@ + n.kind@ + "), "@ + n.path@).is_prefix_of(t)
            &&& !language_known ==> holds(t, "Occurrence index unavailable for '"@ + n.language@ + "'"@)
            &&& language_known && !file_known ==> holds(
                t,
                "No reference occurrences are recorded for '"@ + n.path@ + "' itself"@,
            )
            &&& language_known && file_known && dart_open ==> holds(
                t,
                "0 recorded reference(s), not a definitive zero. This repo's Dart dependencies are not resolved"@,
            )
            &&& language_known && file_known && !dart_open ==> holds(
                t,
                "0 reference(s). This symbol has no recorded uses."@,
            )
        }),
{
    lemma_no_calls(store.arriving(n.id));
    let t = crate::refs::fallback(store, n);
    let head = "resolved: "@ + n.signature@ + " ("@ + n.kind@ + "), "@ + n.path@;
    let r = crate::refs::resolution(n);
    assert(r =~= head + crate::callers::line_suffix(n.line));
    assert(r.is_prefix_of(t)) by {
        assert(t.subrange(0, r.len() as int) =~= r);
    }
    assert(t.subrange(0, head.len() as int) =~= head) by {
        assert(t.subrange(0, r.len() as int) == r);
        assert(t.subrange(0, head.len() as int) =~= t.subrange(0, r.len() as int).subrange(
            0,
            head.len() as int,
        ));
    }
    let language_known = crate::text::views(store.occurrence_languages@).contains(n.language@);
    let file_known = crate::text::views(store.occurrence_files@).contains(n.path@);
    reveal_strlit("'");
    if !language_known {
        lemma_no_index(n);
    } else if !file_known {
        lemma_unanalysed(n, store.covered(n.language@));
    } else {
        lemma_zero(n);
    }
}

proof fn lemma_no_index(n: Node)
    ensures
        holds(
            crate::refs::no_index(n),
            "Occurrence index unavailable for '"@ + n.language@ + "'"@,
        ),
{
    reveal_strlit("\nOccurrence index unavailable for '");
    reveal_strlit("Occurrence index unavailable for '");
    reveal_strlit("'");
    reveal_strlit(
        "': semantic analysis (Phase B) recorded no reference occurrences for this language in this repo, the result below is not a definitive zero. Run `travsr status` to check Phase B, or use `find_pattern` for a textual search.",
    );
    let y = "': semantic analysis (Phase B) recorded no reference occurrences for this language in this repo, the result below is not a definitive zero. Run `travsr status` to check Phase B, or use `find_pattern` for a textual search."@;
    let x = "Occurrence index unavailable for '"@ + n.language@ + "'"@;
    let r = crate::refs::resolution(n);
    let a = r + "\n"@;
    reveal_strlit("\n");
    assert("\nOccurrence index unavailable for '"@ =~= "\n"@ + "Occurrence index unavailable for '"@);
    assert(y =~= "'"@ + y.skip(1));
    assert(crate::refs::no_index(n) =~= a + x + y.skip(1));
    crate::lines::lemma_holds_itself(a, x, y.skip(1));
}

proof fn lemma_unanalysed(n: Node, covered: (u32, u32))
    ensures
        holds(
            crate::refs::unanalysed(n, covered),
            "No reference occurrences are recorded for '"@ + n.path@ + "' itself"@,
        ),
{
    let p = "\n0 recorded reference(s), not a definitive zero. No reference occurrences are recorded for '"@;
    let y = "' itself, so semantic analysis may never have covered this file ("@;
    let x = "No reference occurrences are recorded for '"@ + n.path@ + "' itself"@;
    reveal_strlit(
        "\n0 recorded reference(s), not a definitive zero. No reference occurrences are recorded for '",
    );
    reveal_strlit("No reference occurrences are recorded for '");
    reveal_strlit("' itself, so semantic analysis may never have covered this file (");
    reveal_strlit("' itself");
    let k = p.len() - "No reference occurrences are recorded for '"@.len();
    assert(p.skip(k) =~= "No reference occurrences are recorded for '"@);
    assert(p =~= p.take(k) + "No reference occurrences are recorded for '"@);
    assert(y =~= "' itself"@ + y.skip(8));
    let t = crate::refs::unanalysed(n, covered);
    let a = crate::refs::resolution(n) + p.take(k);
    let b = t.skip((a + x).len() as int);
    assert(t =~= a + x + b) by {
        let front = crate::refs::resolution(n) + p + n.path@ + y;
        assert(front =~= a + x + y.skip(8));
        assert(t.take(front.len() as int) =~= front);
        assert(t.take((a + x).len() as int) =~= front.take((a + x).len() as int));
        assert(front.take((a + x).len() as int) =~= a + x);
    }
    crate::lines::lemma_holds_itself(a, x, b);
}

proof fn lemma_zero(n: Node)
    ensures
        holds(
            crate::refs::genuine_zero(n),
            "0 reference(s). This symbol has no recorded uses."@,
        ),
        holds(
            crate::refs::unresolved_dart(n),
            "0 recorded reference(s), not a definitive zero. This repo's Dart dependencies are not resolved"@,
        ),
{
    let r = crate::refs::resolution(n);
    reveal_strlit("0 reference(s). This symbol has no recorded uses.");
    reveal_strlit(
        "\n0 reference(s). This symbol has no recorded uses. If this name is also defined elsewhere, bare calls to it are left unindexed to avoid mis-targeting; use `find_pattern` for a textual search.",
    );
    let x = "0 reference(s). This symbol has no recorded uses."@;
    let t = crate::refs::genuine_zero(n);
    assert(t.subrange(1int + r.len(), 1int + r.len() + x.len()) =~= x);
    reveal_strlit(
        "0 recorded reference(s), not a definitive zero. This repo's Dart dependencies are not resolved",
    );
    reveal_strlit(
        "\n0 recorded reference(s), not a definitive zero. This repo's Dart dependencies are not resolved (no `.dart_tool/package_config.json`), so cross-package references are not indexed. Run `dart pub get` and re-run `travsr init`, or use `find_pattern` for a textual search.",
    );
    let y = "0 recorded reference(s), not a definitive zero. This repo's Dart dependencies are not resolved"@;
    let u = crate::refs::unresolved_dart(n);
    assert(u.subrange(1int + r.len(), 1int + r.len() + y.len()) =~= y);
}

/// Whether a signature names a container: a dot or a hash follows its last colon.
pub proof fn law_containers_stand_before_a_dot_or_hash(front: Seq<char>, own: Seq<char>)
    requires
        !own.contains(':'),
    ensures
        crate::names::contained(front + ":"@ + own) <==> own.contains('.') || own.contains('#'),
        crate::names::contained(own) <==> own.contains('.') || own.contains('#'),
{
    reveal_strlit(":");
    assert(front + ":"@ + own =~= front.push(':') + own);
    crate::text_laws::law_after_last_is_the_rest(front, ':', own, ':', ':');
    lemma_after_none(own);
    lemma_some_last(own, '.', '#');
}

proof fn lemma_after_none(own: Seq<char>)
    requires
        !own.contains(':'),
    ensures
        crate::text::after_last(own, ':', ':') == own,
{
    lemma_some_last(own, ':', ':');
}

proof fn lemma_some_last(s: Seq<char>, c: char, d: char)
    ensures
        crate::text::last_of(s, c, d) is Some <==> s.contains(c) || s.contains(d),
    decreases s.len(),
{
    if s.len() > 0 {
        let p = s.drop_last();
        lemma_some_last(p, c, d);
        assert(s =~= p.push(s.last()));
        crate::store::lemma_push_contains(p, s.last(), c);
        crate::store::lemma_push_contains(p, s.last(), d);
    }
}

// ---------------------------------------------------------------- arguments

/// A pattern in another syntax that finds nothing has an advisory; it tells a word boundary what to write.
pub proof fn law_foreign_patterns_are_told(pattern: Seq<char>)
    ensures
        crate::text::contains(pattern, "\\b"@) || crate::text::contains(pattern, "\\B"@) ==> (
        crate::pattern::advisory(pattern) matches Some(t) && holds(
            t,
            " Try [[:<:]] or a character class."@,
        )),
        crate::text::contains(pattern, "\\d"@) || crate::text::contains(pattern, "\\D"@)
            || crate::text::contains(pattern, "\\w"@) || crate::text::contains(pattern, "\\W"@)
            || crate::text::contains(pattern, "\\s"@) || crate::text::contains(pattern, "\\S"@)
            || crate::text::contains(pattern, "(?"@) ==> crate::pattern::advisory(pattern) is Some,
{
    if let Some(c) = crate::pattern::foreign_construct(pattern) {
        let a = "note: `"@ + c
            + "` is a PCRE construct; travsr pattern uses POSIX ERE, where it is not supported."@;
        crate::lines::lemma_holds_itself(a, " Try [[:<:]] or a character class."@, Seq::empty());
    }
}

/// A query that no name has finds what the fuzzy search gives.
pub proof fn law_unknown_names_are_searched_loosely(store: Store, query: Seq<char>, found: Seq<Node>)
    requires
        store.name_hits(query) is None || store.name_hits(query)->0.len() == 0,
        store.fuzzy_hits(query, None, false) == Some(found),
    ensures
        crate::seeds::text_hits(store, query).0 == found,
{
}

/// A number may have a plus sign.
pub proof fn law_numbers_may_have_a_sign(d: Seq<char>, max: nat)
    requires
        d.len() > 0 ==> d[0] != '+',
    ensures
        crate::snippets::number("+"@ + d, max) == crate::snippets::number(d, max),
{
    reveal_strlit("+");
    assert(("+"@ + d).drop_first() =~= d);
}

/// A setting that is no positive number counts as none.
pub proof fn law_settings_are_positive(setting: Option<&str>, max: nat)
    ensures
        crate::retrieval::positive(setting, max) matches Some(n) ==> 0 < n <= max && setting is Some,
        setting matches Some(s) ==> (crate::snippets::number(s@, max) matches Some(n) ==> n > 0
            ==> crate::retrieval::positive(setting, max) == Some(n)),
{
}

/// The line of a section names every heading on the way to it.
pub proof fn law_every_heading_is_named(anchor: Seq<char>, i: int)
    requires
        0 <= i < crate::split::split(anchor, '/', '/').len(),
    ensures
        holds(
            crate::docs::trail(anchor),
            crate::docs::title(crate::split::split(anchor, '/', '/')[i]),
        ),
{
    let slugs = crate::split::split(anchor, '/', '/');
    let v = Seq::new(slugs.len(), |j: int| crate::docs::title(slugs[j]));
    assert(v[i] == crate::docs::title(slugs[i]));
    crate::lines::lemma_join_holds(v, " \u{203a} "@, i);
}

proof fn lemma_trimmed(parts: Seq<Seq<char>>)
    ensures
        forall|t: Seq<char>| #[trigger]
            crate::registry::trimmed(parts).contains(t) <==> t.len() > 0 && exists|i: int|
                0 <= i < parts.len() && crate::split::trim(#[trigger] parts[i]) == t,
    decreases parts.len(),
{
    if parts.len() > 0 {
        let p = parts.drop_last();
        lemma_trimmed(p);
        let last = crate::split::trim(parts.last());
        assert forall|t: Seq<char>| #[trigger]
            crate::registry::trimmed(parts).contains(t) <==> t.len() > 0 && exists|i: int|
                0 <= i < parts.len() && crate::split::trim(#[trigger] parts[i]) == t by {
            crate::store::lemma_push_contains(crate::registry::trimmed(p), last, t);
            assert(crate::registry::trimmed(p).contains(t) <==> t.len() > 0 && exists|i: int|
                0 <= i < p.len() && crate::split::trim(#[trigger] p[i]) == t);
            if exists|i: int| 0 <= i < p.len() && crate::split::trim(#[trigger] p[i]) == t {
                let i = choose|i: int| 0 <= i < p.len() && crate::split::trim(#[trigger] p[i]) == t;
                assert(crate::split::trim(parts[i]) == t);
            }
            if exists|i: int| 0 <= i < parts.len() && crate::split::trim(#[trigger] parts[i]) == t {
                let i = choose|i: int|
                    0 <= i < parts.len() && crate::split::trim(#[trigger] parts[i]) == t;
                if i < p.len() {
                    assert(crate::split::trim(p[i]) == t);
                }
            }
            if t == last {
                assert(crate::split::trim(parts[parts.len() - 1]) == t);
            }
        }
    }
}

/// The aliases of a synonym are what stands between commas, without the blanks around; what is blank is none.
pub proof fn law_aliases_stand_between_commas(csv: Seq<char>)
    ensures
        forall|t: Seq<char>| #[trigger]
            crate::registry::aliases(csv).contains(t) <==> t.len() > 0 && exists|i: int|
                0 <= i < crate::split::split(csv, ',', ',').len() && crate::split::trim(
                    #[trigger] crate::split::split(csv, ',', ',')[i],
                ) == t,
{
    lemma_trimmed(crate::split::split(csv, ',', ','));
}

/// The marker of a test counts where a capital follows it.
pub proof fn law_markers_need_a_capital(marker: Seq<char>, rest: Seq<char>)
    ensures
        crate::noise::marked_name(marker + rest, marker) <==> rest.len() > 0 && crate::noise::is_upper(
            rest[0],
        ),
{
    let s = marker + rest;
    assert(s.subrange(0int, 0int + marker.len()) =~= marker);
    if rest.len() > 0 {
        assert(s[marker.len() as int] == rest[0]);
    }
}

/// An overview is made of the named repository alone, or of all whose database is there.
pub proof fn law_overviews_are_of_every_repository(repos: Seq<crate::global::Repo>, i: int)
    requires
        0 <= i < repos.len(),
    ensures
        crate::overview::overview_places(repos, None).contains(i) <==> repos[i].live,
        (forall|j: int| 0 <= j < i ==> (#[trigger] repos[j]).name@ != repos[i].name@) && repos[i].live
            ==> crate::overview::overview_places(repos, Some(repos[i].name@)) == seq![i],
{
    crate::global_laws::lemma_live(repos);
    if forall|j: int| 0 <= j < i ==> (#[trigger] repos[j]).name@ != repos[i].name@ {
        crate::global_laws::lemma_named_first(repos, i);
    }
}

// ---------------------------------------------------------------- small answers

/// The line of a section goes by its headings; what stands before the first heading is the preamble.
pub proof fn law_sections_go_by_their_headings(anchor: Seq<char>)
    ensures
        anchor != "_preamble"@ ==> crate::docs::humanized("doc:"@ + anchor) == crate::docs::trail(anchor),
        crate::docs::humanized("doc:"@ + "_preamble"@) == "(preamble)"@,
{
    lemma_doc_mark(anchor);
    lemma_doc_mark("_preamble"@);
}

proof fn lemma_doc_mark(anchor: Seq<char>)
    ensures
        crate::docs::unmarked("doc:"@ + anchor) == anchor,
{
    let s = "doc:"@ + anchor;
    let n = "doc:"@.len() as int;
    assert(s.subrange(0int, 0int + n) =~= "doc:"@);
    assert(s.skip(n) =~= anchor);
}

/// The head of a checkout is what was printed, without the blanks around, where there was success and something was printed.
pub proof fn law_heads_are_printed(success: bool, stdout: Seq<char>)
    ensures
        crate::notes::printed_head(success, stdout) is Some <==> success && crate::split::trim(stdout).len()
            > 0,
        crate::notes::printed_head(success, stdout) matches Some(h) ==> h == crate::split::trim(stdout),
{
}

/// What a run that was recorded found is the answer.
pub proof fn law_recorded_runs_are_answered(
    store: Store,
    query: Seq<char>,
    ask: crate::context::Ask,
    denied: Seq<u64>,
    embed: bool,
    run: crate::retrieval::Retrieval,
)
    requires
        crate::retrieval::retrieval_of(store.retrievals@, query, embed) == Some(run),
    ensures
        crate::context::recorded_context(store, query, ask, denied, embed) == crate::context::context(
            store,
            query,
            ask,
            denied,
            run,
        ),
{
}

/// A commit is told where it is a hexadecimal number, and else there is none; a language has a hint only while its calls are not known.
pub proof fn law_statuses_tell_commit_and_hint(c: Seq<char>, m: crate::lang::LangView)
    ensures
        (forall|i: int|
            0 <= i < c.len() ==> {
                let x = #[trigger] c[i];
                ('0' <= x && x <= '9') || ('a' <= x && x <= 'f') || ('A' <= x && x <= 'F')
            }) ==> crate::lang::commit_json(Some(c)) == "\""@ + c + "\""@,
        (exists|i: int|
            0 <= i < c.len() && {
                let x = #[trigger] c[i];
                !('0' <= x && x <= '9') && !('a' <= x && x <= 'f') && !('A' <= x && x <= 'F')
            }) ==> crate::lang::commit_json(Some(c)) == "null"@,
        crate::lang::commit_json(None) == "null"@,
        crate::lang::hint(m, true).len() == 0,
        m.builtin ==> crate::lang::hint(m, false) == m.tool,
        !m.builtin ==> crate::lang::hint(m, false) == m.install,
{
}

/// The share of covered files is the whole percentage below it.
pub proof fn law_percentages_are_rounded_down(a: u32, b: u32)
    requires
        b > 0,
    ensures
        crate::refs::percent((a, b)) * b <= 100 * a < (crate::refs::percent((a, b)) + 1) * b,
{
    let n = 100 * a as int;
    let d = b as int;
    vstd::arithmetic::div_mod::lemma_fundamental_div_mod(n, d);
    vstd::arithmetic::div_mod::lemma_mod_bound(n, d);
    let p = n / d;
    assert(p * d == d * p) by (nonlinear_arith);
    assert((p + 1) * d == p * d + d) by (nonlinear_arith);
}

/// An overview of a repository that can be read shows its components, and below a directory what is in it.
pub proof fn law_overviews_show_what_is_there(store: Store, prefix: Seq<char>)
    requires
        !store.scan_failed,
    ensures
        crate::overview::shown(store, Seq::empty()) == crate::overview::components(store),
        prefix.len() > 0 ==> crate::overview::shown(store, prefix) == crate::overview::drill(store, prefix),
{
}

/// A dotted name is looked up as a member of its container.
pub proof fn law_dotted_names_are_members(store: Store, symbol: Seq<char>, a: Seq<char>, b: Seq<char>)
    requires
        crate::names::dotted(symbol) == Some((a, b)),
        a.len() > 0,
        b.len() > 0,
    ensures
        crate::refs::dotted_definitions(store, symbol) == crate::refs::container_members(store, a, b),
{
}

/// A probe of the semantic search tells that there is none, or that it found nothing.
pub proof fn law_probes_tell_that_nothing_was_found(store: Store, query: Seq<char>)
    requires
        crate::sanitize::arg_ok(query),
    ensures
        crate::trace::probe(store, query, None) == "[embed KNN unavailable, embeddings not wired]"@,
        crate::trace::probe(store, query, Some(Seq::empty())) == "[no KNN results]"@,
{
}

/// A footer tells whether sources have a budget of their own.
pub proof fn law_footers_tell_whose_budget_it_is(
    v: Seq<crate::picks::Pick>,
    s: crate::context::Sourced,
)
    ensures
        holds(crate::context::source_foot(v, s, true), "separate"@),
        holds(crate::context::source_foot(v, s, false), "shared"@),
{
    let a = "["@ + crate::text::dec(v.len()) + " nodes, "@ + crate::text::dec(s.count)
        + " with snippets, ~"@ + crate::text::dec(crate::picks::total(v)) + " metadata-tokens + ~"@
        + crate::text::dec(s.tokens) + " snippet-tokens ("@;
    crate::lines::lemma_holds_itself(a, "separate"@, " budget)]"@);
    crate::lines::lemma_holds_itself(a, "shared"@, " budget)]"@);
}

} // verus!
