//! Laws on single lines, words and choices.

use vstd::prelude::*;

use crate::graph::{is_over, is_skipped, Request, WalkView};
use crate::lines::holds;
use crate::picks::{has_pick, picked, Pick};
use crate::roles::section;
use crate::sections::{node_line, MatchSource};
use crate::snippets::{classified, TokenView};
use crate::store::{Node, Store};

verus! {

// ---------------------------------------------------------------- words

proof fn lemma_nonempty_concat(a: Seq<Seq<char>>, b: Seq<Seq<char>>)
    ensures
        crate::text::nonempty(a + b) == crate::text::nonempty(a) + crate::text::nonempty(b),
    decreases b.len(),
{
    if b.len() == 0 {
        assert(a + b =~= a);
        assert(crate::text::nonempty(a) + crate::text::nonempty(b) =~= crate::text::nonempty(a));
    } else {
        assert((a + b).drop_last() =~= a + b.drop_last());
        lemma_nonempty_concat(a, b.drop_last());
        assert(crate::text::nonempty(a + b) =~= crate::text::nonempty(a) + crate::text::nonempty(b));
    }
}

proof fn lemma_alnum_parts(a: Seq<char>, x: char, b: Seq<char>)
    requires
        !crate::split::is_alnum(x),
    ensures
        crate::split::alnum_parts(a.push(x) + b) == crate::split::alnum_parts(a) + crate::split::alnum_parts(b),
        crate::split::alnum_parts(b).len() > 0,
    decreases b.len(),
{
    let s = a.push(x) + b;
    if b.len() == 0 {
        assert(s =~= a.push(x));
        assert(s.drop_last() =~= a);
        assert(crate::split::alnum_parts(s) =~= crate::split::alnum_parts(a) + crate::split::alnum_parts(b));
    } else {
        let p = b.drop_last();
        lemma_alnum_parts(a, x, p);
        assert(s.drop_last() =~= a.push(x) + p);
        let (u, v) = (crate::split::alnum_parts(a), crate::split::alnum_parts(p));
        assert((u + v).drop_last() =~= u + v.drop_last());
        assert((u + v).last() == v.last());
        assert(crate::split::alnum_parts(s) =~= u + crate::split::alnum_parts(b));
    }
}

/// A text of letters and digits is one run, and any other character parts the runs on its two sides.
pub proof fn law_runs_of_letters_and_digits(a: Seq<char>, x: char, b: Seq<char>)
    ensures
        !('a' <= x <= 'z') && !('A' <= x <= 'Z') && !('0' <= x <= '9') ==> crate::split::alnum_runs(
            a.push(x) + b,
        ) == crate::split::alnum_runs(a) + crate::split::alnum_runs(b),
        a.len() > 0 && (forall|i: int|
            0 <= i < a.len() ==> 'a' <= #[trigger] a[i] <= 'z' || 'A' <= a[i] <= 'Z' || '0' <= a[i] <= '9')
            ==> crate::split::alnum_runs(a) == seq![a],
        crate::split::alnum_runs(Seq::<char>::empty()).len() == 0,
{
    reveal_with_fuel(crate::text::nonempty, 3);
    if !crate::split::is_alnum(x) {
        lemma_alnum_parts(a, x, b);
        lemma_nonempty_concat(crate::split::alnum_parts(a), crate::split::alnum_parts(b));
    }
    if a.len() > 0 && (forall|i: int|
        0 <= i < a.len() ==> 'a' <= #[trigger] a[i] <= 'z' || 'A' <= a[i] <= 'Z' || '0' <= a[i] <= '9') {
        lemma_one_run(a);
        assert(seq![a].drop_last() =~= Seq::<Seq<char>>::empty());
        assert(crate::text::nonempty(seq![a]) =~= seq![a]);
    }
    let e = seq![Seq::<char>::empty()];
    assert(e.drop_last() =~= Seq::<Seq<char>>::empty());
    assert(crate::text::nonempty(e) =~= Seq::<Seq<char>>::empty());
}

proof fn lemma_one_run(a: Seq<char>)
    requires
        forall|i: int| 0 <= i < a.len() ==> crate::split::is_alnum(#[trigger] a[i]),
    ensures
        crate::split::alnum_parts(a) == seq![a],
    decreases a.len(),
{
    if a.len() > 0 {
        let p = a.drop_last();
        assert forall|i: int| 0 <= i < p.len() implies crate::split::is_alnum(#[trigger] p[i]) by {
            assert(p[i] == a[i]);
        }
        lemma_one_run(p);
        assert(crate::split::is_alnum(a[a.len() - 1]));
        assert(p.push(a.last()) =~= a);
        assert(crate::split::alnum_parts(a) =~= seq![a]);
    } else {
        assert(a =~= Seq::<char>::empty());
    }
}

proof fn lemma_space_parts(a: Seq<char>, x: char, b: Seq<char>)
    requires
        crate::split::is_space(x),
    ensures
        crate::split::space_parts(a.push(x) + b) == crate::split::space_parts(a) + crate::split::space_parts(b),
        crate::split::space_parts(b).len() > 0,
    decreases b.len(),
{
    let s = a.push(x) + b;
    if b.len() == 0 {
        assert(s =~= a.push(x));
        assert(s.drop_last() =~= a);
        assert(crate::split::space_parts(s) =~= crate::split::space_parts(a) + crate::split::space_parts(b));
    } else {
        let p = b.drop_last();
        lemma_space_parts(a, x, p);
        assert(s.drop_last() =~= a.push(x) + p);
        let (u, v) = (crate::split::space_parts(a), crate::split::space_parts(p));
        assert((u + v).drop_last() =~= u + v.drop_last());
        assert((u + v).last() == v.last());
        assert(crate::split::space_parts(s) =~= u + crate::split::space_parts(b));
    }
}

/// A text without white space is one word, and white space parts the words on its two sides.
pub proof fn law_words_are_parted_by_white_space(a: Seq<char>, x: char, b: Seq<char>)
    ensures
        crate::split::is_space(x) ==> crate::split::words(a.push(x) + b) == crate::split::words(a)
            + crate::split::words(b),
        a.len() > 0 && (forall|i: int| 0 <= i < a.len() ==> !crate::split::is_space(#[trigger] a[i]))
            ==> crate::split::words(a) == seq![a],
        crate::split::is_space(' ') && crate::split::is_space('\n') && crate::split::is_space('\t'),
{
    reveal_with_fuel(crate::text::nonempty, 3);
    if crate::split::is_space(x) {
        lemma_space_parts(a, x, b);
        lemma_nonempty_concat(crate::split::space_parts(a), crate::split::space_parts(b));
    }
    if a.len() > 0 && (forall|i: int| 0 <= i < a.len() ==> !crate::split::is_space(#[trigger] a[i])) {
        lemma_one_word(a);
        assert(seq![a].drop_last() =~= Seq::<Seq<char>>::empty());
        assert(crate::text::nonempty(seq![a]) =~= seq![a]);
    }
}

proof fn lemma_one_word(a: Seq<char>)
    requires
        forall|i: int| 0 <= i < a.len() ==> !crate::split::is_space(#[trigger] a[i]),
    ensures
        crate::split::space_parts(a) == seq![a],
    decreases a.len(),
{
    if a.len() > 0 {
        let p = a.drop_last();
        assert forall|i: int| 0 <= i < p.len() implies !crate::split::is_space(#[trigger] p[i]) by {
            assert(p[i] == a[i]);
        }
        lemma_one_word(p);
        assert(!crate::split::is_space(a[a.len() - 1]));
        assert(p.push(a.last()) =~= a);
        assert(crate::split::space_parts(a) =~= seq![a]);
    } else {
        assert(a =~= Seq::<char>::empty());
    }
}

/// A query without its first language word, and an `in` before it, is what is searched for, in that language.
pub proof fn law_language_word_narrows_the_search(query: Seq<char>, i: int)
    requires
        0 <= i < crate::split::words(query).len(),
        crate::search::lang_token(crate::split::lower(crate::split::words(query)[i])) is Some,
        forall|j: int|
            0 <= j < i ==> crate::search::lang_token(
                crate::split::lower(#[trigger] crate::split::words(query)[j]),
            ) is None,
    ensures
        ({
            let ws = crate::split::words(query);
            let from = if i > 0 && crate::split::lower(ws[i - 1]) == "in"@ {
                i - 1
            } else {
                i
            };
            let rest = crate::text::join(ws.take(from) + ws.skip(i + 1), " "@);
            let (term, lang) = crate::search::inferred(query);
            &&& lang == crate::search::lang_token(crate::split::lower(ws[i]))
            &&& crate::split::trim(rest).len() > 0 ==> term == rest
            &&& crate::split::trim(rest).len() == 0 ==> term == query
        }),
{
    lemma_first_lang(crate::split::words(query), i);
}

proof fn lemma_first_lang(ws: Seq<Seq<char>>, i: int)
    requires
        0 <= i < ws.len(),
        crate::search::lang_token(crate::split::lower(ws[i])) is Some,
        forall|j: int| 0 <= j < i ==> crate::search::lang_token(crate::split::lower(#[trigger] ws[j])) is None,
    ensures
        crate::search::first_lang(ws) == Some(i),
    decreases ws.len(),
{
    let p = ws.drop_last();
    if i < p.len() {
        assert(p[i] == ws[i]);
        assert forall|j: int| 0 <= j < i implies crate::search::lang_token(
            crate::split::lower(#[trigger] p[j]),
        ) is None by {
            assert(p[j] == ws[j]);
        }
        lemma_first_lang(p, i);
    } else {
        crate::search::lemma_first_lang(p);
        if let Some(j) = crate::search::first_lang(p) {
            assert(p[j] == ws[j]);
        }
    }
}

// ---------------------------------------------------------------- imports of a file

/// An import that resolves to a file is found by the name of the file, where its signature holds that name as a word.
pub proof fn law_imports_are_found_by_the_name_of_the_file(
    dir: Seq<char>,
    stem: Seq<char>,
    ext: Seq<char>,
    signature: Seq<char>,
)
    requires
        stem.len() > 0,
        forall|i: int| 0 <= i < stem.len() ==> crate::split::is_alnum(#[trigger] stem[i]),
        !ext.contains('/') && !ext.contains('\\') && !ext.contains('.'),
        crate::blast::tokens(signature).contains(stem),
        crate::text::after_prefix(stem, "import:"@) is None,
    ensures
        crate::blast::is_candidate(crate::blast::hints(dir + "/"@ + stem + "."@ + ext), signature),
{
    reveal_strlit("/");
    reveal_strlit(".");
    reveal_strlit("..");
    let name = stem + "."@ + ext;
    let file = dir + "/"@ + stem + "."@ + ext;
    assert(file =~= dir.push('/') + name);
    assert(!name.contains('/') && !name.contains('\\')) by {
        assert forall|i: int| 0 <= i < name.len() implies name[i] != '/' && name[i] != '\\' by {
            if i < stem.len() {
                assert(name[i] == stem[i]);
                assert(crate::split::is_alnum(stem[i]));
            } else if i > stem.len() {
                assert(name[i] == ext[i - stem.len() - 1]);
                assert(ext.contains(ext[i - stem.len() - 1]));
            }
        }
    }
    lemma_last_part(dir, name);
    let parts = crate::split::split(file, '/', '\\');
    assert(parts.last() == name);
    assert(name.len() > 1);
    assert(name != "."@ && name != ".."@) by {
        assert(name[0] == stem[0]);
        assert(crate::split::is_alnum(stem[0]));
    }
    let c = crate::blast::components(parts);
    assert(c.len() > 0 && c.last() == name);
    lemma_stem(stem, ext);
    let h = crate::blast::hints(file);
    let d = if c.len() >= 2 && c[c.len() - 2] != ".."@ {
        seq![c[c.len() - 2]]
    } else {
        Seq::empty()
    };
    assert(h.contains(stem)) by {
        if d.contains(stem) {
            assert(h == d);
        } else {
            assert(h == d.push(stem));
            assert(h[d.len() as int] == stem);
        }
    }
    let k = choose|k: int| 0 <= k < h.len() && h[k] == stem;
    lemma_one_run(stem);
    law_runs_of_letters_and_digits(stem, ' ', Seq::empty());
    let t = crate::blast::tokens(stem);
    assert(t == seq![stem]);
    assert(t[0] == stem);
    assert(crate::blast::share(crate::blast::tokens(h[k]), crate::blast::tokens(signature)));
}

proof fn lemma_last_part(dir: Seq<char>, name: Seq<char>)
    requires
        !name.contains('/'),
        !name.contains('\\'),
    ensures
        crate::split::split(dir.push('/') + name, '/', '\\').len() > 0,
        crate::split::split(dir.push('/') + name, '/', '\\').last() == name,
    decreases name.len(),
{
    let s = dir.push('/') + name;
    if name.len() == 0 {
        assert(s =~= dir.push('/'));
        assert(s.last() == '/');
        assert(name =~= Seq::<char>::empty());
    } else {
        let p = name.drop_last();
        assert(s.drop_last() =~= dir.push('/') + p);
        assert forall|i: int| 0 <= i < p.len() implies p[i] != '/' && p[i] != '\\' by {
            assert(name.contains(name[i]));
        }
        lemma_last_part(dir, p);
        assert(name.contains(name[name.len() - 1]));
        assert(p.push(name.last()) =~= name);
    }
}

proof fn lemma_stem(stem: Seq<char>, ext: Seq<char>)
    requires
        stem.len() > 0,
        !ext.contains('.'),
    ensures
        crate::blast::stem(stem + "."@ + ext) == stem,
{
    let name = stem + "."@ + ext;
    crate::answer_laws::lemma_last_dot(stem, ext);
    assert(name.take(stem.len() as int) =~= stem);
}

// ---------------------------------------------------------------- drawings

/// A drawing leaves out nodes of another kind than wanted, local index symbols, imports between symbols, and stubs without a file;
/// nothing else.
pub proof fn law_what_a_drawing_leaves_out(q: Request, n: Node, hop: nat)
    ensures
        is_skipped(q, n, hop) <==> {
            ||| q.kind.len() > 0 && n.kind@ != q.kind
            ||| crate::text::starts_with(n.signature@, "scip:"@) && crate::text::contains(
                n.signature@,
                ":local "@,
            )
            ||| n.kind@ == "import"@ && q.kind != "file"@
            ||| n.path@.len() == 0 && hop > 0
        },
{
}

/// A node no longer fits the budget where there is one, something is drawn, and the costs together exceed it.
pub proof fn law_budget_bounds_the_costs(q: Request, w: WalkView, n: Node)
    ensures
        is_over(q, w, n) <==> q.budget > 0 && w.nodes.len() > 0 && w.used + n.token_cost > q.budget,
{
}

/// A name is ambiguous where it has more than one definition, declarations in headers aside.
pub proof fn law_ambiguous_names_have_several_definitions(store: Store, query: Seq<char>, kind: Seq<char>)
    ensures
        ({
            let nodes = crate::refs::without_headers(crate::refs::resolved(store, query, None));
            &&& kind.len() == 0 && query.len() > 0 && nodes.len() > 1 ==> crate::graph_json::ambiguous(
                store,
                query,
                kind,
            ) == nodes
            &&& nodes.len() <= 1 || kind.len() > 0 || query.len() == 0 ==> crate::graph_json::ambiguous(
                store,
                query,
                kind,
            ).len() == 0
        }),
{
}

// ---------------------------------------------------------------- definitions

proof fn lemma_ends(s: Seq<char>, t: Seq<char>)
    requires
        crate::text::ends_with(s, t),
    ensures
        s.len() >= t.len() && s.skip(s.len() - t.len()) == t,
{
    assert(s.subrange(s.len() - t.len(), s.len() - t.len() + t.len()) =~= s.skip(s.len() - t.len()));
}

/// Of several definitions those in headers count only where there is no other.
pub proof fn law_definitions_come_before_headers(nodes: Seq<Node>, n: Node)
    requires
        nodes.contains(n),
    ensures
        !crate::refs::is_header(n.path@) ==> crate::refs::without_headers(nodes).contains(n),
        !crate::refs::is_header(n.path@) && nodes.len() > 1 ==> forall|m: Node| #[trigger]
            crate::refs::without_headers(nodes).contains(m) ==> !crate::refs::is_header(m.path@),
        (forall|m: Node| #[trigger] nodes.contains(m) ==> crate::refs::is_header(m.path@))
            ==> crate::refs::without_headers(nodes) == nodes,
{
    let p = |m: Node| !crate::refs::is_header(m.path@);
    crate::store::lemma_kept(nodes, p);
    let sources = crate::store::kept(nodes, p);
    assert(crate::refs::without_headers(nodes) == (if nodes.len() > 1 && sources.len() > 0 {
        sources
    } else {
        nodes
    }));
    if !crate::refs::is_header(n.path@) {
        assert(p(n));
        assert(sources.contains(n));
    }
    if forall|m: Node| #[trigger] nodes.contains(m) ==> crate::refs::is_header(m.path@) {
        if sources.len() > 0 {
            assert(sources.contains(sources[0]));
            assert(nodes.contains(sources[0]));
        }
    }
}

proof fn lemma_definition_lines(nodes: Seq<Node>, i: int)
    requires
        0 <= i < nodes.len(),
    ensures
        holds(
            crate::refs::definition_lines(nodes),
            nodes[i].signature@ + " ("@ + nodes[i].kind@ + "), "@ + nodes[i].path@,
        ),
    decreases nodes.len(),
{
    let p = nodes.drop_last();
    let rest = crate::refs::definition_lines(p);
    let n = nodes[i];
    let x = n.signature@ + " ("@ + n.kind@ + "), "@ + n.path@;
    let last = crate::refs::definition_line(nodes.last());
    if i < p.len() {
        assert(p[i] == nodes[i]);
        lemma_definition_lines(p, i);
        crate::lines::lemma_holds_around(Seq::empty(), rest, last, x);
    } else {
        let tail = crate::callers::line_suffix(n.line) + "\n"@;
        assert(last =~= "  "@ + x + tail);
        crate::lines::lemma_holds_itself(rest + "  "@, x, tail);
        assert(rest + last =~= rest + "  "@ + x + tail);
    }
}

/// An ambiguous name is answered with the number of its definitions, and each of them, up to five hundred.
pub proof fn law_every_definition_of_an_ambiguous_name_is_offered(symbol: Seq<char>, nodes: Seq<Node>, i: int)
    requires
        0 <= i < nodes.len(),
        nodes.len() <= 500,
    ensures
        ({
            let head = "'"@ + symbol + "' is ambiguous, "@ + crate::text::dec(nodes.len())
                + " definitions. Re-run with a `path` hint to pick one:\n"@;
            let all = head + crate::refs::definition_lines(nodes);
            &&& crate::refs::ambiguity(symbol, nodes) == crate::split::trim_end(all)
            &&& holds(all, nodes[i].signature@ + " ("@ + nodes[i].kind@ + "), "@ + nodes[i].path@)
        }),
{
    lemma_definition_lines(nodes, i);
    let head = "'"@ + symbol + "' is ambiguous, "@ + crate::text::dec(nodes.len())
        + " definitions. Re-run with a `path` hint to pick one:\n"@;
    crate::lines::lemma_holds_around(
        head,
        crate::refs::definition_lines(nodes),
        Seq::empty(),
        nodes[i].signature@ + " ("@ + nodes[i].kind@ + "), "@ + nodes[i].path@,
    );
}

/// A dotted name denotes the members whose signature carries the container, where there are any.
pub proof fn law_dotted_names_denote_members(
    store: Store,
    container: Seq<char>,
    member: Seq<char>,
    hits: Seq<Node>,
    n: Node,
)
    requires
        store.name_hits(member) == Some(hits),
        hits.contains(n),
        n.kind@ != "file"@ && n.kind@ != "import"@,
        crate::names::bare_name(n.signature@) == member,
        crate::names::qualified(n.signature@, container, member),
    ensures
        crate::refs::container_members(store, container, member).contains(n),
        forall|m: Node| #[trigger]
            crate::refs::container_members(store, container, member).contains(m)
                ==> crate::names::qualified(m.signature@, container, member),
{
    let p = |m: Node| crate::refs::is_definition(m) && crate::names::bare_name(m.signature@) == member;
    crate::store::lemma_kept(hits, p);
    let all = crate::refs::members(store, member);
    assert(all == crate::store::kept(hits, p));
    let q = |m: Node| crate::names::qualified(m.signature@, container, member);
    crate::store::lemma_kept(all, q);
    let own = crate::store::kept(all, q);
    assert(p(n));
    assert(all.contains(n));
    assert(q(n));
    assert(own.contains(n));
    assert(crate::refs::container_members(store, container, member) == own);
}

// ---------------------------------------------------------------- lines of an answer

/// The line of a node tells its name, kind, file and line, how it was found unless its section says so, and its score.
pub proof fn law_line_tells_its_node(
    n: Node,
    role: Seq<char>,
    score: Option<Seq<char>>,
    via: Option<Seq<char>>,
    source: Option<Seq<char>>,
    omit: bool,
)
    ensures
        ({
            let l = node_line(n, role, score, via, source, omit);
            &&& (n.signature@ + " ("@ + n.kind@ + "), "@ + n.path@ + (match n.line {
                Some(x) => ":"@ + crate::text::dec(x as nat),
                None => Seq::empty(),
            })).is_prefix_of(l)
            &&& score matches Some(s) ==> holds(l, " [score: "@ + s + "]"@)
            &&& !omit && (role == "caller"@ || role == "dependency"@) ==> (via matches Some(v) ==> holds(
                l,
                " [via: "@ + role + " of "@ + v + "]"@,
            ))
            &&& !omit && via is None ==> (source matches Some(s) ==> holds(
                l,
                " [via: "@ + role + " \u{b7} "@ + s + "]"@,
            ))
            &&& !omit && via is None && source is None ==> holds(l, " [via: "@ + role + "]"@)
            &&& n.package@.len() > 0 ==> holds(l, " [package: "@ + n.package@ + "]"@)
        }),
{
    let l = node_line(n, role, score, via, source, omit);
    let head = n.signature@ + " ("@ + n.kind@ + "), "@ + n.path@ + crate::callers::line_suffix(n.line);
    let pkg = crate::sections::package_mark(n.package@);
    let badge = if omit {
        Seq::empty()
    } else {
        crate::sections::badge(role, via, source)
    };
    let mark = crate::sections::score_mark(score);
    assert(l =~= head + pkg + badge + mark);
    assert(l.subrange(0, head.len() as int) =~= head);
    crate::lines::lemma_holds_itself(head + pkg + badge, mark, Seq::empty());
    assert(head + pkg + badge + mark =~= head + pkg + badge + mark);
    crate::lines::lemma_holds_itself(head + pkg, badge, mark);
    crate::lines::lemma_holds_itself(head, pkg, badge + mark);
    assert(head + pkg + (badge + mark) =~= l);
}

/// A test is among the tests; of the others, what the query gave by its name is an exact match, what it gave otherwise a related one,
/// and the rest is relevant.
pub proof fn law_sections_by_origin(n: Node, source: Option<crate::retrieval::SeedSource>, primary: Seq<u64>)
    ensures
        n.is_test ==> section(n, source, primary) == MatchSource::Tests,
        !n.is_test && !primary.contains(n.id) ==> section(n, source, primary) == MatchSource::Relevant,
        !n.is_test && primary.contains(n.id) && source == Some(crate::retrieval::SeedSource::Exact)
            ==> section(n, source, primary) == MatchSource::Exact,
        !n.is_test && primary.contains(n.id) && source != Some(crate::retrieval::SeedSource::Exact)
            ==> section(n, source, primary) == MatchSource::Semantic,
{
}

/// What was selected is shown in the order of the selection.
pub proof fn law_picks_keep_their_order(v: Seq<Pick>, chosen: Seq<u64>, i: int, j: int)
    requires
        0 <= i < j < picked(v, chosen).len(),
    ensures
        exists|a: int, b: int|
            0 <= a < b < chosen.len() && #[trigger] chosen[a] == picked(v, chosen)[i].node.id
                && #[trigger] chosen[b] == picked(v, chosen)[j].node.id,
    decreases chosen.len(),
{
    let c = chosen.drop_last();
    let p = picked(v, c);
    let r = picked(v, chosen);
    crate::picks::law_every_selected_candidate_is_picked(v, c);
    crate::picks::law_every_selected_candidate_is_picked(v, chosen);
    if j < p.len() {
        law_picks_keep_their_order(v, c, i, j);
        let (a, b) = choose|a: int, b: int|
            0 <= a < b < c.len() && #[trigger] c[a] == p[i].node.id && #[trigger] c[b] == p[j].node.id;
        assert(r[i] == p[i] && r[j] == p[j]);
        assert(chosen[a] == c[a] && chosen[b] == c[b]);
    } else {
        assert(r[i] == p[i]);
        assert(has_pick(p, p[i].node.id));
        assert(c.contains(p[i].node.id));
        let a = choose|a: int| 0 <= a < c.len() && c[a] == p[i].node.id;
        let x = crate::picks::pick_of(v, chosen.last())->0;
        lemma_pick_of_id(v, chosen.last());
        assert(r[j] == x);
        assert(chosen[a] == c[a]);
        assert(chosen[chosen.len() - 1] == x.node.id);
    }
}

proof fn lemma_pick_of_id(v: Seq<Pick>, id: u64)
    ensures
        crate::picks::pick_of(v, id) matches Some(p) ==> p.node.id == id,
    decreases v.len(),
{
    if v.len() > 0 {
        lemma_pick_of_id(v.drop_last(), id);
    }
}

// ---------------------------------------------------------------- the map

/// A last line of the map counts the components that are not named, where there are any.
pub proof fn law_map_counts_what_is_not_named(store: Store, reserve: nat)
    requires
        !store.scan_failed,
        store.nodes@.len() > 0,
        crate::repo_map::map_view(store).symbols.len() > 0,
    ensures
        ({
            let m = crate::repo_map::map_view(store);
            let d = crate::repo_map::body(m, reserve);
            let total = m.ordered().len();
            &&& d.named < total ==> holds(
                crate::repo_map::repo_map(store, reserve),
                "+"@ + crate::text::dec((total - d.named) as nat) + " more components (of "@
                    + crate::text::dec(total) + ")\n"@,
            )
            &&& holds(crate::repo_map::repo_map(store, reserve), "Repo map, components ranked by "@)
            &&& !store.has_calls ==> holds(
                crate::repo_map::repo_map(store, reserve),
                "Note: semantic analysis (Phase B) has not run, dependents are from import structure only; call-graph data is unavailable. Commit to trigger Phase B.\n"@,
            )
        }),
{
    let m = crate::repo_map::map_view(store);
    let d = crate::repo_map::body(m, reserve);
    let foot = crate::repo_map::footer(m, d.named);
    let t = crate::repo_map::repo_map(store, reserve);
    crate::lines::lemma_holds_itself(m.header() + d.text, foot, Seq::empty());
    let note =
        "Note: semantic analysis (Phase B) has not run, dependents are from import structure only; call-graph data is unavailable. Commit to trigger Phase B.\n"@;
    let start = "Repo map, components ranked by "@;
    reveal_strlit("Repo map, components ranked by ");
    reveal_strlit(
        "Repo map, components ranked by code volume (symbols); no cross-component dependencies detected.\n",
    );
    reveal_strlit(
        "Repo map, components ranked by dependents (most load-bearing first); symbols = code volume.\n",
    );
    let n = start.len() as int;
    assert(n == 31);
    assert(m.header().subrange(0int, 0int + n) =~= start);
    assert(holds(m.header(), start));
    crate::lines::lemma_holds_around(Seq::empty(), m.header(), d.text, start);
    crate::lines::lemma_holds_around(Seq::empty(), m.header() + d.text, foot, start);
    if !store.has_calls {
        let ranking = if m.flat() {
            "Repo map, components ranked by code volume (symbols); no cross-component dependencies detected.\n"@
        } else {
            "Repo map, components ranked by dependents (most load-bearing first); symbols = code volume.\n"@
        };
        assert(m.header() == ranking + note);
        crate::lines::lemma_holds_itself(ranking, note, Seq::empty());
        crate::lines::lemma_holds_around(Seq::empty(), m.header(), d.text, note);
        crate::lines::lemma_holds_around(Seq::empty(), m.header() + d.text, foot, note);
    }
}

// ---------------------------------------------------------------- textual search

/// A match of at most 512 bytes is shown whole, a longer one as its first 512 bytes with a mark.
pub proof fn law_long_matches_are_cut(line: Seq<char>)
    ensures
        crate::width::blen(line) <= 512 ==> crate::pattern::match_line(line) == line,
        crate::width::blen(line) > 512 ==> crate::pattern::match_line(line) == crate::width::fit(line, 512)
            + " \u{2026}[line truncated]"@,
{
    reveal_strlit(" \u{2026}[line truncated]");
    reveal_strlit(" …[line truncated]");
    assert(" \u{2026}[line truncated]"@ =~= " …[line truncated]"@);
}

/// A scope `files-importing(symbol)` stands for the symbol.
pub proof fn law_importing_scope_names_its_symbol(symbol: Seq<char>)
    ensures
        crate::pattern::importing_scope("files-importing("@ + symbol + ")"@) == Some(
            crate::split::trim(symbol),
        ),
{
    reveal_strlit(")");
    let head = "files-importing("@;
    let s = head + symbol + ")"@;
    assert(s.subrange(0, 0 + head.len() as int) =~= head);
    let rest = s.skip(head.len() as int);
    assert(rest =~= symbol + ")"@);
    assert(rest.subrange(rest.len() - 1, rest.len() - 1 + 1) =~= ")"@);
    assert(rest.take(rest.len() - 1) =~= symbol);
}

/// A path is in the scope of a directory that it lies below, and in no scope that is neither itself nor above it.
pub proof fn law_paths_below_a_scope_are_in_it(dir: Seq<char>, rest: Seq<char>)
    requires
        dir.len() > 0,
        dir.last() != '/',
    ensures
        crate::pattern::in_scope(dir + "/"@ + rest, dir),
        crate::pattern::in_scope(dir, dir),
        crate::pattern::in_scope(dir + "/"@ + rest, dir + "/"@),
{
    reveal_strlit("/");
    reveal_with_fuel(crate::split::trim_end_char, 2);
    let p = dir + "/"@ + rest;
    assert(p.subrange(0, 0 + dir.len() as int) =~= dir);
    assert((dir + "/"@).drop_last() =~= dir);
}

// ---------------------------------------------------------------- what is asked for by snippets

/// A request by the id of a node, written in decimal, denotes that id; a path with a slash and a line denotes that line.
pub proof fn law_ids_and_lines_are_read(id: nat, path: Seq<char>, line: nat)
    requires
        id <= u64::MAX,
        line <= u32::MAX,
        path.contains('/'),
        crate::snippets::id_token(path + ":"@ + crate::text::dec(line)) is None,
        crate::snippets::header_token(path + ":"@ + crate::text::dec(line)) is None,
    ensures
        classified("nodeId:"@ + crate::text::dec(id)) == TokenView::NodeId(id),
        classified(path + ":"@ + crate::text::dec(line)) == (TokenView::PathLine {
            path,
            start: line,
            end: None,
        }),
{
    let head = "nodeId:"@;
    let d = crate::text::dec(id);
    let s = head + d;
    assert(s.subrange(0, 0 + head.len() as int) =~= head);
    assert(s.skip(head.len() as int) =~= d);
    lemma_number(id, u64::MAX as nat);
    lemma_dec_is_trimmed(id);
    let e = crate::text::dec(line);
    lemma_number(line, u32::MAX as nat);
    let t = path + ":"@ + e;
    reveal_strlit(":");
    crate::text_laws::law_decimals_read_back(line);
    assert(!e.contains(':') && !e.contains('-')) by {
        assert forall|i: int| 0 <= i < e.len() implies e[i] != ':' && e[i] != '-' by {
            assert('0' <= e[i] <= '9');
        }
    }
    lemma_last_colon(path, e);
    assert(t.take(path.len() as int) =~= path);
    assert(t.skip(path.len() as int + 1) =~= e);
    lemma_no_first(e, '-');
}

proof fn lemma_number(n: nat, max: nat)
    requires
        n <= max,
    ensures
        crate::snippets::number(crate::text::dec(n), max) == Some(n),
        crate::snippets::all_digits(crate::text::dec(n)),
{
    let d = crate::text::dec(n);
    crate::text_laws::law_decimals_read_back(n);
    assert('0' <= d[0] <= '9');
    lemma_value(d);
}

proof fn lemma_value(s: Seq<char>)
    ensures
        crate::snippets::value(s) == crate::text_laws::reads_as(s) || !crate::snippets::all_digits(s),
    decreases s.len(),
{
    if s.len() > 0 && crate::snippets::all_digits(s) {
        let p = s.drop_last();
        assert forall|i: int| 0 <= i < p.len() implies crate::snippets::is_digit(#[trigger] p[i]) by {
            assert(p[i] == s[i]);
        }
        lemma_value(p);
        assert(crate::snippets::is_digit(s[s.len() - 1]));
    }
}

proof fn lemma_dec_is_trimmed(n: nat)
    ensures
        crate::split::trim(crate::text::dec(n)) == crate::text::dec(n),
{
    let d = crate::text::dec(n);
    crate::text_laws::law_decimals_read_back(n);
    assert('0' <= d[0] <= '9');
    assert('0' <= d[d.len() - 1] <= '9');
}

proof fn lemma_last_colon(a: Seq<char>, b: Seq<char>)
    requires
        !b.contains(':'),
    ensures
        crate::text::last_of(a + ":"@ + b, ':', ':') == Some(a.len() as int),
    decreases b.len(),
{
    reveal_strlit(":");
    let s = a + ":"@ + b;
    if b.len() > 0 {
        let p = b.drop_last();
        assert(s.drop_last() =~= a + ":"@ + p);
        assert(b[b.len() - 1] != ':');
        assert forall|i: int| 0 <= i < p.len() implies p[i] != ':' by {
            assert(b[i] != ':');
        }
        lemma_last_colon(a, p);
    }
}

proof fn lemma_no_first(s: Seq<char>, c: char)
    requires
        !s.contains(c),
    ensures
        crate::text::first_of(s, c) is None,
    decreases s.len(),
{
    if s.len() > 0 {
        let p = s.drop_last();
        assert(s[s.len() - 1] != c);
        assert forall|i: int| 0 <= i < p.len() implies p[i] != c by {
            assert(s[i] != c);
        }
        lemma_no_first(p, c);
    }
}

// ---------------------------------------------------------------- titles

/// The title of a heading is the titles of its words.
pub proof fn law_titles_go_word_by_word(a: Seq<Seq<char>>, b: Seq<Seq<char>>)
    ensures
        crate::docs::titled_words(a + b) == crate::docs::titled_words(a) + crate::docs::titled_words(b),
        a.len() == 1 && a[0].len() > 0 ==> crate::docs::titled_words(a) == seq![
            crate::noise::upper_case(a[0][0]) + a[0].drop_first(),
        ],
    decreases b.len(),
{
    reveal_with_fuel(crate::docs::titled_words, 2);
    if a.len() == 1 && a[0].len() > 0 {
        assert(a.drop_last() =~= Seq::<Seq<char>>::empty());
        assert(crate::docs::titled_words(a) =~= seq![
            crate::noise::upper_case(a[0][0]) + a[0].drop_first(),
        ]);
    }
    if b.len() == 0 {
        assert(a + b =~= a);
        assert(crate::docs::titled_words(a) + crate::docs::titled_words(b) =~= crate::docs::titled_words(a));
    } else {
        assert((a + b).drop_last() =~= a + b.drop_last());
        law_titles_go_word_by_word(a, b.drop_last());
        assert(crate::docs::titled_words(a + b) =~= crate::docs::titled_words(a)
            + crate::docs::titled_words(b));
    }
}

/// A cited section is told with its file, its headings and its lines, cut where it has more than 512 bytes.
pub proof fn law_citations_tell_their_place(n: Node)
    ensures
        ({
            let l = n.path@ + " \u{a7} "@ + crate::docs::humanized(n.signature@) + crate::docs::span(
                n.line,
                n.end_line,
            );
            &&& crate::width::blen(l) <= 512 ==> crate::docs::doc_line(n) == l
            &&& crate::width::blen(l) > 512 ==> crate::docs::doc_line(n) == crate::width::fit(l, 512)
                + "\u{2026}"@
        }),
        n.line matches Some(s) ==> (n.end_line matches Some(e) ==> s != e ==> crate::docs::span(
            n.line,
            n.end_line,
        ) == ":"@ + crate::text::dec(s as nat) + "-"@ + crate::text::dec(e as nat)),
{
}

// ---------------------------------------------------------------- timing

/// The hits of a semantic search count only where it was configured and in time.
pub proof fn law_late_hits_are_not_used(
    run: Option<crate::retrieval::EmbedRun>,
    hits: Seq<crate::seeds::KnnHit>,
)
    ensures
        run is None ==> crate::seeds::timely(run, hits).len() == 0,
        run matches Some(e) ==> e.elapsed_ms > e.budget_ms ==> crate::seeds::timely(run, hits).len() == 0,
        run matches Some(e) ==> e.elapsed_ms <= e.budget_ms ==> crate::seeds::timely(run, hits) == hits,
{
}

} // verus!
