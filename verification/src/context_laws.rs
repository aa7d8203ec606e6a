//! What an answer with context shows.

use vstd::prelude::*;

use crate::context::{
    composed, grounded, pick_line, plain_entries, primary, source_ceiling, sourced, start, Ask,
};
use crate::global::Repo;
use crate::lines::holds;
use crate::picks::{picked, Pick};
use crate::retrieval::Retrieval;
use crate::sections::{assembled, EntryView, MatchSource};
use crate::seeds::Weighted;
use crate::snippets::SnippetMode;
use crate::store::Store;

verus! {

/// The source that is recorded for a node.
pub open spec fn code_of(store: Store, p: Pick) -> Option<Seq<char>> {
    crate::snippets::shown(store, crate::snippets::item(p.node), SnippetMode::Auto)
}

/// The tokens of a source: one per four bytes, and one more.
pub open spec fn code_tokens(code: Seq<char>) -> nat {
    (vstd::utf8::encode_utf8(code).len() / 4 + 1) as nat
}

/// The tokens of all sources together.
pub open spec fn all_tokens(store: Store, v: Seq<Pick>) -> nat
    decreases v.len(),
{
    if v.len() == 0 {
        0
    } else {
        all_tokens(store, v.drop_last()) + match code_of(store, v.last()) {
            Some(c) => code_tokens(c),
            None => 0,
        }
    }
}

proof fn lemma_sourced_step(
    store: Store,
    seeds: Seq<Weighted>,
    own: Seq<u64>,
    grouped: bool,
    ceiling: nat,
    v: Seq<Pick>,
)
    requires
        v.len() > 0,
    ensures
        ({
            let s = sourced(store, seeds, own, grouped, ceiling, v.drop_last());
            let t = sourced(store, seeds, own, grouped, ceiling, v);
            let line = pick_line(store, seeds, own, grouped, v.last());
            &&& t.entries.len() == s.entries.len() + 1
            &&& forall|i: int| 0 <= i < s.entries.len() ==> t.entries[i] == s.entries[i]
            &&& match code_of(store, v.last()) {
                Some(c) => if s.tokens + code_tokens(c) <= ceiling {
                    t.entries.last().line == line + "\n---\n"@ + c && t.tokens == s.tokens
                        + code_tokens(c) && t.count == s.count + 1
                } else {
                    t.entries.last().line == line && t.tokens == s.tokens && t.count == s.count
                },
                None => t.entries.last().line == line && t.tokens == s.tokens && t.count == s.count,
            }
        }),
{
    let line = pick_line(store, seeds, own, grouped, v.last());
    assert(line + Seq::<char>::empty() =~= line);
    if let Some(c) = code_of(store, v.last()) {
        assert(line + ("\n---\n"@ + c) =~= line + "\n---\n"@ + c);
    }
}

/// A node's entry is its line, and below it its source exactly where that and the sources shown before it fit
/// the budget together; and the tokens spent and the number of sources count just those.
pub proof fn law_source_is_shown_where_it_fits(
    store: Store,
    seeds: Seq<Weighted>,
    own: Seq<u64>,
    grouped: bool,
    ceiling: nat,
    v: Seq<Pick>,
    i: int,
)
    requires
        0 <= i < v.len(),
    ensures
        ({
            let before = sourced(store, seeds, own, grouped, ceiling, v.take(i));
            let upto = sourced(store, seeds, own, grouped, ceiling, v.take(i + 1));
            let all = sourced(store, seeds, own, grouped, ceiling, v);
            let line = pick_line(store, seeds, own, grouped, v[i]);
            &&& all.entries.len() == v.len()
            &&& match code_of(store, v[i]) {
                Some(c) => if before.tokens + code_tokens(c) <= ceiling {
                    all.entries[i].line == line + "\n---\n"@ + c && upto.tokens == before.tokens
                        + code_tokens(c) && upto.count == before.count + 1
                } else {
                    all.entries[i].line == line && upto.tokens == before.tokens && upto.count
                        == before.count
                },
                None => all.entries[i].line == line && upto.tokens == before.tokens && upto.count
                    == before.count,
            }
        }),
    decreases v.len(),
{
    lemma_sourced_step(store, seeds, own, grouped, ceiling, v);
    crate::context::law_source_stays_within_its_budget(store, seeds, own, grouped, ceiling, v);
    crate::context::law_source_stays_within_its_budget(
        store,
        seeds,
        own,
        grouped,
        ceiling,
        v.drop_last(),
    );
    let p = v.drop_last();
    if i < p.len() {
        law_source_is_shown_where_it_fits(store, seeds, own, grouped, ceiling, p, i);
        assert(p.take(i) =~= v.take(i));
        assert(p.take(i + 1) =~= v.take(i + 1));
        assert(p[i] == v[i]);
    } else {
        assert(v.take(i) =~= p);
        assert(v.take(i + 1) =~= v);
    }
}

/// Nothing is spent and nothing counted before the first node.
pub proof fn law_no_node_spends_nothing(
    store: Store,
    seeds: Seq<Weighted>,
    own: Seq<u64>,
    grouped: bool,
    ceiling: nat,
)
    ensures
        sourced(store, seeds, own, grouped, ceiling, Seq::empty()).tokens == 0,
        sourced(store, seeds, own, grouped, ceiling, Seq::empty()).count == 0,
        sourced(store, seeds, own, grouped, ceiling, Seq::empty()).entries.len() == 0,
{
}

proof fn lemma_all_fit(
    store: Store,
    seeds: Seq<Weighted>,
    own: Seq<u64>,
    grouped: bool,
    ceiling: nat,
    v: Seq<Pick>,
)
    requires
        all_tokens(store, v) <= ceiling,
    ensures
        sourced(store, seeds, own, grouped, ceiling, v).tokens == all_tokens(store, v),
        sourced(store, seeds, own, grouped, ceiling, v).count == v.filter(
            |p: Pick| code_of(store, p) is Some,
        ).len(),
    decreases v.len(),
{
    reveal(Seq::filter);
    if v.len() > 0 {
        lemma_all_fit(store, seeds, own, grouped, ceiling, v.drop_last());
        lemma_sourced_step(store, seeds, own, grouped, ceiling, v);
    }
}

/// Where all sources together fit the budget, every node that has a source shows it, and all are counted.
pub proof fn law_every_source_is_shown_where_all_fit(
    store: Store,
    seeds: Seq<Weighted>,
    own: Seq<u64>,
    grouped: bool,
    ceiling: nat,
    v: Seq<Pick>,
)
    requires
        all_tokens(store, v) <= ceiling,
    ensures
        forall|i: int|
            0 <= i < v.len() ==> (code_of(store, #[trigger] v[i]) matches Some(c) ==> sourced(
                store,
                seeds,
                own,
                grouped,
                ceiling,
                v,
            ).entries[i].line == pick_line(store, seeds, own, grouped, v[i]) + "\n---\n"@ + c),
        sourced(store, seeds, own, grouped, ceiling, v).count == v.filter(
            |p: Pick| code_of(store, p) is Some,
        ).len(),
        sourced(store, seeds, own, grouped, ceiling, v).tokens == all_tokens(store, v),
{
    lemma_all_fit(store, seeds, own, grouped, ceiling, v);
    assert forall|i: int| 0 <= i < v.len() implies (code_of(store, #[trigger] v[i]) matches Some(c)
        ==> sourced(store, seeds, own, grouped, ceiling, v).entries[i].line == pick_line(
        store,
        seeds,
        own,
        grouped,
        v[i],
    ) + "\n---\n"@ + c) by {
        lemma_tokens_grow(store, v, i + 1);
        assert(v.take(i + 1).drop_last() =~= v.take(i));
        assert(v.take(i + 1).last() == v[i]);
        lemma_all_fit(store, seeds, own, grouped, ceiling, v.take(i));
        law_source_is_shown_where_it_fits(store, seeds, own, grouped, ceiling, v, i);
    }
}

proof fn lemma_tokens_grow(store: Store, v: Seq<Pick>, n: int)
    requires
        0 <= n <= v.len(),
    ensures
        all_tokens(store, v.take(n)) <= all_tokens(store, v),
    decreases v.len(),
{
    if n < v.len() {
        lemma_tokens_grow(store, v.drop_last(), n);
        assert(v.drop_last().take(n) =~= v.take(n));
    } else {
        assert(v.take(n) =~= v);
    }
}

// ---------------------------------------------------------------- the whole answer

proof fn lemma_assembled_holds(v: Seq<EntryView>, sep: Seq<char>, grouped: bool, i: int)
    requires
        0 <= i < v.len(),
        grouped ==> v[i].source != MatchSource::Tests,
    ensures
        holds(assembled(v, sep, grouped), v[i].line),
{
    if grouped {
        let b = crate::sections::by_section(v);
        let keys = crate::sections::entry_keys(v);
        crate::rank::lemma_order(keys);
        let o = crate::rank::order_of(keys);
        assert(o.contains(i));
        let k = choose|k: int| 0 <= k < o.len() && o[k] == i;
        assert(b[k] == v[i]);
        crate::sections::law_sections_show_every_entry(b);
        let ls = crate::sections::laid_out(b).lines;
        assert(ls.contains(b[k].line));
        let m = choose|m: int| 0 <= m < ls.len() && ls[m] == v[i].line;
        crate::lines::lemma_join_holds(ls, sep, m);
    } else {
        let ls = crate::sections::entry_lines(v);
        assert(ls[i] == v[i].line);
        crate::lines::lemma_join_holds(ls, sep, i);
    }
}

proof fn lemma_composed_holds(
    head: Seq<char>,
    entries: Seq<EntryView>,
    sep: Seq<char>,
    grouped: bool,
    budget: nat,
    foot: Seq<char>,
    signals: Seq<char>,
    part: Seq<char>,
)
    requires
        holds(assembled(entries, sep, grouped), part) && crate::sanitize::is_plain(
            assembled(entries, sep, grouped),
        ) && crate::width::blen(assembled(entries, sep, grouped)) <= crate::snippets::char_cap(budget)
            || holds(foot, part) && crate::sanitize::is_plain(foot),
    ensures
        holds(composed(head, entries, sep, grouped, budget, foot, signals), part),
{
    let a = assembled(entries, sep, grouped);
    let b = crate::sanitize::body(a, crate::snippets::char_cap(budget));
    let tail = if signals.len() == 0 {
        Seq::empty()
    } else {
        "\n"@ + signals
    };
    crate::sanitize::law_clean_goes_piece_by_piece(head, b);
    crate::sanitize::law_clean_goes_piece_by_piece(head + b, "\n\n"@);
    crate::sanitize::law_clean_goes_piece_by_piece(head + b + "\n\n"@, foot);
    crate::sanitize::law_clean_goes_piece_by_piece(head + b + "\n\n"@ + foot, tail);
    let (ch, cb, cn, cf, ct) = (
        crate::sanitize::clean(head),
        crate::sanitize::clean(b),
        crate::sanitize::clean("\n\n"@),
        crate::sanitize::clean(foot),
        crate::sanitize::clean(tail),
    );
    if holds(foot, part) && crate::sanitize::is_plain(foot) {
        crate::sanitize::law_plain_text_is_kept(foot);
        crate::lines::lemma_holds_around(ch + cb + cn, cf, ct, part);
    } else {
        crate::sanitize::law_plain_text_is_kept(a);
        assert(b == a);
        crate::lines::lemma_holds_around(ch, cb, cn + cf + ct, part);
        assert(ch + cb + (cn + cf + ct) =~= ch + cb + cn + cf + ct);
    }
}

/// The part of an answer that lists the nodes and the documentation.
pub open spec fn listing(store: Store, ask: Ask, run: Retrieval, all: Seq<Pick>) -> Seq<char> {
    let v = picked(all, run.selected@);
    let seeds = start(store, run.seeds);
    let own = primary(run.seeds);
    let grouped = run.grouping && v.len() > 4;
    let docs = crate::docs::docs(store, run.docs).entries;
    if ask.snippets && crate::notes::filled(store.meta_value("repo_root"@)) is Some {
        assembled(
            sourced(store, seeds, own, grouped, source_ceiling(ask, v), v).entries + docs,
            "\n\n"@,
            grouped,
        )
    } else {
        assembled(plain_entries(store, seeds, own, grouped, v) + docs, "\n"@, grouped)
    }
}

/// Every node that was picked is named in the answer with its kind and file, unless the answer is divided into
/// sections and the node is a test; as long as the listing is plain and fits.
pub proof fn law_every_picked_node_is_listed(
    store: Store,
    ask: Ask,
    run: Retrieval,
    all: Seq<Pick>,
    i: int,
)
    requires
        0 <= i < picked(all, run.selected@).len(),
        run.grouping && picked(all, run.selected@).len() > 4 ==> crate::roles::section(
            picked(all, run.selected@)[i].node,
            picked(all, run.selected@)[i].hit.source,
            primary(run.seeds),
        ) != MatchSource::Tests,
        crate::sanitize::is_plain(listing(store, ask, run, all)),
        crate::width::blen(listing(store, ask, run, all)) <= crate::snippets::char_cap(ask.budget),
    ensures
        ({
            let n = picked(all, run.selected@)[i].node;
            holds(
                grounded(store, ask, run, all),
                n.signature@ + " ("@ + n.kind@ + "), "@ + n.path@,
            )
        }),
{
    let v = picked(all, run.selected@);
    let n = v[i].node;
    let seeds = start(store, run.seeds);
    let own = primary(run.seeds);
    let grouped = run.grouping && v.len() > 4;
    let docs = crate::docs::docs(store, run.docs).entries;
    let name = n.signature@ + " ("@ + n.kind@ + "), "@ + n.path@;
    let line = pick_line(store, seeds, own, grouped, v[i]);
    lemma_pick_line_holds(store, seeds, own, grouped, v[i]);
    let head = crate::context::head_lines(store, run);
    let signals = crate::context::answer_signals(store, run, all, v);
    if ask.snippets && crate::notes::filled(store.meta_value("repo_root"@)) is Some {
        let ceiling = source_ceiling(ask, v);
        let s = sourced(store, seeds, own, grouped, ceiling, v);
        law_source_is_shown_where_it_fits(store, seeds, own, grouped, ceiling, v, i);
        lemma_sections_kept(store, seeds, own, grouped, ceiling, v, i);
        let entries = s.entries + docs;
        assert(entries[i] == s.entries[i]);
        if let Some(c) = code_of(store, v[i]) {
            crate::lines::lemma_holds_around(Seq::empty(), line, "\n---\n"@ + c, name);
            assert(line + ("\n---\n"@ + c) =~= line + "\n---\n"@ + c);
        }
        lemma_assembled_holds(entries, "\n\n"@, grouped, i);
        crate::lines::lemma_holds_within(
            assembled(entries, "\n\n"@, grouped),
            entries[i].line,
            name,
        );
        lemma_composed_holds(
            head,
            entries,
            "\n\n"@,
            grouped,
            ask.budget,
            crate::context::source_foot(v, s, ask.snippet_budget is Some),
            signals,
            name,
        );
    } else {
        let plain = plain_entries(store, seeds, own, grouped, v);
        let entries = plain + docs;
        assert(entries[i] == plain[i]);
        assert(line + Seq::<char>::empty() =~= line);
        lemma_assembled_holds(entries, "\n"@, grouped, i);
        crate::lines::lemma_holds_within(assembled(entries, "\n"@, grouped), entries[i].line, name);
        lemma_composed_holds(
            head,
            entries,
            "\n"@,
            grouped,
            ask.budget,
            crate::context::plain_foot(v),
            signals,
            name,
        );
        lemma_composed_holds(
            head,
            entries,
            "\n"@,
            grouped,
            ask.budget,
            crate::context::rootless_foot(v),
            crate::text::join(
                crate::sections::signals(
                    crate::sections::health(store, run.embed is Some, run.warming(), false),
                    None,
                    None,
                    None,
                    None,
                ),
                "\n"@,
            ),
            name,
        );
    }
}

proof fn lemma_pick_line_holds(
    store: Store,
    seeds: Seq<Weighted>,
    own: Seq<u64>,
    grouped: bool,
    p: Pick,
)
    ensures
        holds(
            pick_line(store, seeds, own, grouped, p),
            p.node.signature@ + " ("@ + p.node.kind@ + "), "@ + p.node.path@,
        ),
{
    let n = p.node;
    let name = n.signature@ + " ("@ + n.kind@ + "), "@ + n.path@;
    let line = pick_line(store, seeds, own, grouped, p);
    assert(line.subrange(0int, 0int + name.len()) =~= name);
}

proof fn lemma_sections_kept(
    store: Store,
    seeds: Seq<Weighted>,
    own: Seq<u64>,
    grouped: bool,
    ceiling: nat,
    v: Seq<Pick>,
    i: int,
)
    requires
        0 <= i < v.len(),
    ensures
        i < sourced(store, seeds, own, grouped, ceiling, v).entries.len(),
        sourced(store, seeds, own, grouped, ceiling, v).entries[i].source == crate::roles::section(
            v[i].node,
            v[i].hit.source,
            own,
        ),
    decreases v.len(),
{
    crate::context::law_source_stays_within_its_budget(store, seeds, own, grouped, ceiling, v);
    crate::context::law_source_stays_within_its_budget(
        store,
        seeds,
        own,
        grouped,
        ceiling,
        v.drop_last(),
    );
    if i < v.len() - 1 {
        lemma_sections_kept(store, seeds, own, grouped, ceiling, v.drop_last(), i);
    }
}

// ---------------------------------------------------------------- tests, notes and guesses

/// How many of the entries are tests.
pub open spec fn tests_among(v: Seq<EntryView>) -> nat {
    v.filter(|e: EntryView| e.source == MatchSource::Tests).len()
}

/// Of the tests the first three are shown.
pub proof fn law_three_tests_are_shown(v: Seq<EntryView>)
    ensures
        crate::sections::laid_out(v).tests == (if tests_among(v) < 3 {
            tests_among(v)
        } else {
            3
        }),
        forall|i: int|
            0 <= i < v.len() && (#[trigger] v[i]).source == MatchSource::Tests && tests_among(v.take(i)) < 3
                ==> crate::sections::laid_out(v).lines.contains(v[i].line),
    decreases v.len(),
{
    reveal(Seq::filter);
    if v.len() > 0 {
        let p = v.drop_last();
        let e = v.last();
        law_three_tests_are_shown(p);
        let l = crate::sections::laid_out(p);
        let under = if l.section == Some(e.source) {
            l.lines
        } else {
            l.lines.push(crate::sections::heading(e.source))
        };
        assert forall|i: int|
            0 <= i < v.len() && (#[trigger] v[i]).source == MatchSource::Tests && tests_among(v.take(i)) < 3 implies crate::sections::laid_out(
            v,
        ).lines.contains(v[i].line) by {
            if i < p.len() {
                assert(p[i] == v[i]);
                assert(p.take(i) =~= v.take(i));
                assert(l.lines.contains(v[i].line));
                crate::store::lemma_push_contains(
                    l.lines,
                    crate::sections::heading(e.source),
                    v[i].line,
                );
                crate::store::lemma_push_contains(under, e.line, v[i].line);
            } else {
                assert(v.take(i) =~= p);
                crate::store::lemma_push_contains(under, e.line, v[i].line);
            }
        }
    }
}

/// A message that is due is among the messages of an answer, and one that is not due is not.
pub proof fn law_due_messages_are_told(
    h: crate::sections::Health,
    overflow: Option<Seq<char>>,
    seed_cap: Option<Seq<char>>,
    weak: Option<Seq<char>>,
    concepts: Option<Seq<char>>,
)
    ensures
        ({
            let v = crate::sections::signals(h, overflow, seed_cap, weak, concepts);
            &&& overflow matches Some(s) ==> v.contains(s)
            &&& seed_cap matches Some(s) ==> v.contains(s)
            &&& weak matches Some(s) ==> v.contains(s)
            &&& concepts matches Some(s) ==> v.contains(s)
            &&& h.embed_warming ==> v.contains(
                "[note: semantic embeddings still warming up (sidecar starting), this result is lexical-only; retry in a few seconds for full semantic ranking]"@,
            )
            &&& !h.embed_warming && h.has_embed && h.knn_degraded ==> v.contains(
                "[note: semantic search degraded, KNN timed out or returned empty; results are lexical only]"@,
            )
            &&& !h.embed_warming && !h.has_embed && h.embed_initialized ==> v.contains(
                "[note: embedding in progress. Run `travsr embed status` to check; results improve as index builds]"@,
            )
            &&& !h.embed_warming && !h.has_embed && !h.embed_initialized ==> v.contains(
                "[note: semantic search disabled. Run `travsr embed init` for better results]"@,
            )
            &&& h.phase_b_pending ==> v.contains(
                "[note: call traversal limited. Run `travsr lang install <lang>` to enable call-graph edges]"@,
            )
        }),
{
    let none = Seq::<Seq<char>>::empty();
    let a = crate::sections::with(none, overflow);
    let b = crate::sections::with(a, seed_cap);
    let c = crate::sections::with(b, weak);
    let d = crate::sections::with(c, concepts);
    let e = crate::sections::with(d, crate::sections::embed_note(h));
    lemma_with(none, overflow);
    lemma_with(a, seed_cap);
    lemma_with(b, weak);
    lemma_with(c, concepts);
    lemma_with(d, crate::sections::embed_note(h));
    lemma_with(e, crate::sections::calls_note(h));
}

proof fn lemma_with(v: Seq<Seq<char>>, x: Option<Seq<char>>)
    ensures
        forall|s: Seq<char>| #[trigger] v.contains(s) ==> crate::sections::with(v, x).contains(s),
        x matches Some(s) ==> crate::sections::with(v, x).contains(s),
{
    if let Some(y) = x {
        assert forall|s: Seq<char>| #[trigger] v.contains(s) implies crate::sections::with(v, x).contains(s) by {
            crate::store::lemma_push_contains(v, y, s);
        }
        crate::store::lemma_push_contains(v, y, y);
    }
}

/// Where nothing is grounded, every guess whose node is in the graph is named with its kind and file.
pub proof fn law_every_guess_is_offered(store: Store, ids: Seq<u64>, i: int, n: crate::store::Node)
    requires
        0 <= i < ids.len(),
        store.node(ids[i]) == Some(n),
    ensures
        exists|k: int|
            0 <= k < crate::context::guess_lines(store, ids).len() && (
            #[trigger] crate::context::guess_lines(store, ids)[k]) == "  "@ + crate::sections::node_place(n),
        ("  "@ + n.signature@ + " ("@ + n.kind@ + "), "@ + n.path@).is_prefix_of(
            "  "@ + crate::sections::node_place(n),
        ),
    decreases ids.len(),
{
    let p = ids.drop_last();
    let g = crate::context::guess_lines(store, p);
    let all = crate::context::guess_lines(store, ids);
    let line = "  "@ + crate::sections::node_place(n);
    let head = "  "@ + n.signature@ + " ("@ + n.kind@ + "), "@ + n.path@;
    assert(line.subrange(0, head.len() as int) =~= head);
    if i < p.len() {
        assert(p[i] == ids[i]);
        law_every_guess_is_offered(store, p, i, n);
        let k = choose|k: int| 0 <= k < g.len() && (#[trigger] g[k]) == line;
        assert(all[k] == g[k]);
    } else {
        assert(all[g.len() as int] == line);
    }
}

/// What a request comes to before anything is listed: an invalid query to nothing, a budget beyond the most to a message, none to
/// nothing; and where nothing was found, to the message that nothing matches.
pub proof fn law_requests_that_list_nothing(
    store: Store,
    query: Seq<char>,
    ask: Ask,
    denied: Seq<u64>,
    run: Retrieval,
)
    ensures
        ({
            let t = crate::context::context(store, query, ask, denied, run);
            let ok = crate::sanitize::arg_ok(query);
            &&& !ok ==> t.len() == 0
            &&& ok && ask.budget > 32_000 ==> t == "token_budget exceeds maximum allowed value"@
            &&& ok && ask.budget == 0 ==> t.len() == 0
            &&& ok && 0 < ask.budget <= 32_000 && run.seeds.confidence
                != crate::retrieval::Confidence::Abstain && start(store, run.seeds).len() == 0 ==> t
                == crate::sanitize::body(
                "No symbols matching '"@ + query + "' found in the graph."@,
                crate::snippets::char_cap(ask.budget),
            )
            &&& ok && 0 < ask.budget <= 32_000 && run.seeds.confidence
                != crate::retrieval::Confidence::Abstain && start(store, run.seeds).len() > 0 ==> (
            run.ranked matches Some(hits) ==> crate::picks::candidates(store, hits@, denied).len() > 0
                ==> t == grounded(store, ask, run, crate::picks::candidates(store, hits@, denied)))
        }),
{
}

// ---------------------------------------------------------------- recorded searches, several repositories

/// The context for a query is made from the first search that was recorded for it.
pub proof fn law_recorded_search_is_used(store: Store, query: Seq<char>, ask: Ask, denied: Seq<u64>, embed: bool, i: int)
    requires
        0 <= i < store.retrievals@.len(),
        store.retrievals@[i].query@ == query,
        store.retrievals@[i].embed is Some == embed,
        forall|j: int| 0 <= j < i ==> (#[trigger] store.retrievals@[j]).query@ != query,
    ensures
        crate::context::recorded_context(store, query, ask, denied, embed) == crate::context::context(
            store,
            query,
            ask,
            denied,
            store.retrievals@[i],
        ),
{
    lemma_retrieval_of(store.retrievals@, query, embed, i);
}

proof fn lemma_retrieval_of(v: Seq<Retrieval>, query: Seq<char>, embed: bool, i: int)
    requires
        0 <= i < v.len(),
        v[i].query@ == query,
        v[i].embed is Some == embed,
        forall|j: int| 0 <= j < i ==> (#[trigger] v[j]).query@ != query,
    ensures
        crate::retrieval::retrieval_of(v, query, embed) == Some(v[i]),
    decreases v.len(),
{
    let p = v.drop_last();
    if i < p.len() {
        assert(p[i] == v[i]);
        assert forall|j: int| 0 <= j < i implies (#[trigger] p[j]).query@ != query by {
            assert(p[j] == v[j]);
        }
        lemma_retrieval_of(p, query, embed, i);
    } else {
        assert forall|j: int| 0 <= j < p.len() implies (#[trigger] p[j]).query@ != query by {
            assert(p[j] == v[j]);
        }
        lemma_no_retrieval(p, query, embed);
    }
}

proof fn lemma_no_retrieval(v: Seq<Retrieval>, query: Seq<char>, embed: bool)
    requires
        forall|j: int| 0 <= j < v.len() ==> (#[trigger] v[j]).query@ != query,
    ensures
        crate::retrieval::retrieval_of(v, query, embed) is None,
    decreases v.len(),
{
    if v.len() > 0 {
        let p = v.drop_last();
        assert forall|j: int| 0 <= j < p.len() implies (#[trigger] p[j]).query@ != query by {
            assert(p[j] == v[j]);
        }
        lemma_no_retrieval(p, query, embed);
        assert(v[v.len() - 1].query@ != query);
    }
}

proof fn lemma_most_first(parts: Seq<(nat, Seq<char>)>, sep: Seq<char>, k: int)
    requires
        0 <= k < parts.len(),
    ensures
        holds(crate::search::most_first(parts, sep), parts[k].1),
{
    let keys = crate::search::line_keys(parts);
    crate::rank::lemma_order(keys);
    let p = crate::rank::order_of(keys);
    assert(p.contains(k));
    let i = choose|i: int| 0 <= i < p.len() && p[i] == k;
    let v = Seq::new(p.len(), |i: int| parts[p[i]].1);
    assert(v[i] == parts[k].1);
    crate::lines::lemma_join_holds(v, sep, i);
}

proof fn lemma_context_fan_out(
    repos: Seq<Repo>,
    places: Seq<int>,
    n: int,
    query: Seq<char>,
    ask: Ask,
    k: int,
    store: Store,
)
    requires
        0 <= k < n,
        repos[places[k]].store == Some(store),
        crate::context::recorded_context(store, query, ask, Seq::empty(), false).len() > 0,
    ensures
        exists|i: int|
            0 <= i < crate::context::fan_out(repos, places, n, query, ask).len() && (
            #[trigger] crate::context::fan_out(repos, places, n, query, ask)[i]).1
                == crate::context::titled(
                repos[places[k]].name@,
                crate::context::recorded_context(store, query, ask, Seq::empty(), false),
                places.len() == 1,
            ),
    decreases n,
{
    let rest = crate::context::fan_out(repos, places, n - 1, query, ask);
    let all = crate::context::fan_out(repos, places, n, query, ask);
    let own = crate::context::recorded_context(store, query, ask, Seq::empty(), false);
    if k < n - 1 {
        lemma_context_fan_out(repos, places, n - 1, query, ask, k, store);
        let i = choose|i: int|
            0 <= i < rest.len() && (#[trigger] rest[i]).1 == crate::context::titled(
                repos[places[k]].name@,
                own,
                places.len() == 1,
            );
        assert(all[i] == rest[i]);
    } else {
        assert(all[rest.len() as int].1 == crate::context::titled(
            repos[places[k]].name@,
            own,
            places.len() == 1,
        ));
    }
}

/// A request on all repositories holds the context that each of them has for the query, under its name where there are several.
pub proof fn law_every_repository_gives_context(
    repos: Seq<Repo>,
    query: Seq<char>,
    ask: Ask,
    k: int,
    store: Store,
)
    requires
        crate::sanitize::arg_ok(query),
        ask.budget <= 32_000,
        0 <= k < crate::global::addressed(repos, None).len(),
        repos[crate::global::addressed(repos, None)[k]].store == Some(store),
        crate::context::recorded_context(
            store,
            crate::search::inferred(query).0,
            ask,
            Seq::empty(),
            false,
        ).len() > 0,
    ensures
        ({
            let places = crate::global::addressed(repos, None);
            let own = crate::context::recorded_context(
                store,
                crate::search::inferred(query).0,
                ask,
                Seq::empty(),
                false,
            );
            holds(
                crate::context::context_global(repos, query, ask, None),
                if places.len() == 1 {
                    own
                } else {
                    "[repo: "@ + repos[places[k]].name@ + "]\n"@ + own
                },
            )
        }),
{
    let places = crate::global::addressed(repos, None);
    let term = crate::search::inferred(query).0;
    let n = places.len() as int;
    lemma_context_fan_out(repos, places, n, term, ask, k, store);
    let parts = crate::context::fan_out(repos, places, n, term, ask);
    let own = crate::context::recorded_context(store, term, ask, Seq::empty(), false);
    let i = choose|i: int|
        0 <= i < parts.len() && (#[trigger] parts[i]).1 == crate::context::titled(
            repos[places[k]].name@,
            own,
            places.len() == 1,
        );
    lemma_most_first(parts, "\n\n"@, i);
}

proof fn lemma_search_fan_out(
    repos: Seq<Repo>,
    places: Seq<int>,
    n: int,
    term: Seq<char>,
    lang: Option<Seq<char>>,
    exact: bool,
    k: int,
    store: Store,
)
    requires
        0 <= k < n,
        repos[places[k]].store == Some(store),
        crate::search::matches(store, term, lang, exact).len() > 0,
    ensures
        exists|i: int|
            0 <= i < crate::search::fan_out(repos, places, n, term, lang, exact).len() && (
            #[trigger] crate::search::fan_out(repos, places, n, term, lang, exact)[i]).1
                == crate::global::attributed(
                repos[places[k]].name@,
                crate::search::matches(store, term, lang, exact),
                places.len() == 1,
            ),
    decreases n,
{
    let rest = crate::search::fan_out(repos, places, n - 1, term, lang, exact);
    let all = crate::search::fan_out(repos, places, n, term, lang, exact);
    let x = crate::global::attributed(
        repos[places[k]].name@,
        crate::search::matches(store, term, lang, exact),
        places.len() == 1,
    );
    if k < n - 1 {
        lemma_search_fan_out(repos, places, n - 1, term, lang, exact, k, store);
        let i = choose|i: int| 0 <= i < rest.len() && (#[trigger] rest[i]).1 == x;
        assert(all[i] == rest[i]);
    } else {
        assert(all[rest.len() as int].1 == x);
    }
}

/// A search over all repositories has the matches of each of them.
pub proof fn law_every_repository_gives_matches(
    repos: Seq<Repo>,
    term: Seq<char>,
    lang: Option<Seq<char>>,
    exact: bool,
    k: int,
    store: Store,
)
    requires
        0 <= k < crate::global::addressed(repos, None).len(),
        repos[crate::global::addressed(repos, None)[k]].store == Some(store),
        crate::search::matches(store, term, lang, exact).len() > 0,
    ensures
        ({
            let places = crate::global::addressed(repos, None);
            holds(
                crate::search::most_first(
                    crate::search::fan_out(repos, places, places.len() as int, term, lang, exact),
                    "\n"@,
                ),
                crate::global::attributed(
                    repos[places[k]].name@,
                    crate::search::matches(store, term, lang, exact),
                    places.len() == 1,
                ),
            )
        }),
{
    let places = crate::global::addressed(repos, None);
    let n = places.len() as int;
    lemma_search_fan_out(repos, places, n, term, lang, exact, k, store);
    let parts = crate::search::fan_out(repos, places, n, term, lang, exact);
    let i = choose|i: int|
        0 <= i < parts.len() && (#[trigger] parts[i]).1 == crate::global::attributed(
            repos[places[k]].name@,
            crate::search::matches(store, term, lang, exact),
            places.len() == 1,
        );
    lemma_most_first(parts, "\n"@, i);
}

// ---------------------------------------------------------------- around the entries

/// An answer has its first lines, its last line and its messages, each as it is when it is cleaned.
pub proof fn law_answer_has_its_head_and_foot(
    head: Seq<char>,
    entries: Seq<EntryView>,
    sep: Seq<char>,
    grouped: bool,
    budget: nat,
    foot: Seq<char>,
    signals: Seq<char>,
)
    ensures
        ({
            let t = composed(head, entries, sep, grouped, budget, foot, signals);
            &&& crate::sanitize::clean(head).is_prefix_of(t)
            &&& holds(t, crate::sanitize::clean(foot))
            &&& signals.len() > 0 ==> holds(t, crate::sanitize::clean(signals))
        }),
{
    let a = assembled(entries, sep, grouped);
    let b = crate::sanitize::body(a, crate::snippets::char_cap(budget));
    let tail = if signals.len() == 0 {
        Seq::empty()
    } else {
        "\n"@ + signals
    };
    let t = composed(head, entries, sep, grouped, budget, foot, signals);
    crate::sanitize::law_clean_goes_piece_by_piece(head, b);
    crate::sanitize::law_clean_goes_piece_by_piece(head + b, "\n\n"@);
    crate::sanitize::law_clean_goes_piece_by_piece(head + b + "\n\n"@, foot);
    crate::sanitize::law_clean_goes_piece_by_piece(head + b + "\n\n"@ + foot, tail);
    crate::sanitize::law_clean_goes_piece_by_piece("\n"@, signals);
    let (ch, cb, cn, cf, ct) = (
        crate::sanitize::clean(head),
        crate::sanitize::clean(b),
        crate::sanitize::clean("\n\n"@),
        crate::sanitize::clean(foot),
        crate::sanitize::clean(tail),
    );
    assert(t == ch + cb + cn + cf + ct);
    assert(t.subrange(0, ch.len() as int) =~= ch);
    crate::lines::lemma_holds_itself(ch + cb + cn, cf, ct);
    if signals.len() > 0 {
        let (x, y) = (crate::sanitize::clean("\n"@), crate::sanitize::clean(signals));
        assert(ct == x + y);
        crate::lines::lemma_holds_itself(ch + cb + cn + cf + x, y, Seq::empty());
        assert(ch + cb + cn + cf + x + y =~= t);
    }
}

/// An answer over picked nodes starts with what is told of the search, and tells below the entries how many nodes there are, what
/// they cost, and, where their source is asked for and the checkout is known, how many show it; then come the messages.
pub proof fn law_picked_nodes_are_counted(store: Store, ask: Ask, run: Retrieval, all: Seq<Pick>)
    ensures
        ({
            let t = grounded(store, ask, run, all);
            let v = picked(all, run.selected@);
            let rooted = store.meta_value("repo_root"@) matches Some(r) && r.len() > 0;
            let grouped = run.grouping && v.len() > 4;
            let messages = crate::context::answer_signals(store, run, all, v);
            &&& crate::sanitize::clean(crate::context::head_lines(store, run)).is_prefix_of(t)
            &&& !ask.snippets ==> holds(t, crate::sanitize::clean(crate::context::plain_foot(v)))
            &&& ask.snippets && rooted ==> holds(
                t,
                crate::sanitize::clean(
                    crate::context::source_foot(
                        v,
                        sourced(
                            store,
                            start(store, run.seeds),
                            primary(run.seeds),
                            grouped,
                            source_ceiling(ask, v),
                            v,
                        ),
                        ask.snippet_budget is Some,
                    ),
                ),
            )
            &&& ask.snippets && !rooted ==> holds(
                t,
                crate::sanitize::clean(crate::context::rootless_foot(v)),
            )
            &&& (!ask.snippets || rooted) && messages.len() > 0 ==> holds(
                t,
                crate::sanitize::clean(messages),
            )
        }),
{
    let v = picked(all, run.selected@);
    let seeds = start(store, run.seeds);
    let own = primary(run.seeds);
    let grouped = run.grouping && v.len() > 4;
    let docs = crate::docs::docs(store, run.docs).entries;
    let head = crate::context::head_lines(store, run);
    let plain = plain_entries(store, seeds, own, grouped, v) + docs;
    let messages = crate::context::answer_signals(store, run, all, v);
    let s = sourced(store, seeds, own, grouped, source_ceiling(ask, v), v);
    law_answer_has_its_head_and_foot(
        head,
        plain,
        "\n"@,
        grouped,
        ask.budget,
        crate::context::plain_foot(v),
        messages,
    );
    law_answer_has_its_head_and_foot(
        head,
        plain,
        "\n"@,
        grouped,
        ask.budget,
        crate::context::rootless_foot(v),
        crate::text::join(
            crate::sections::signals(
                crate::sections::health(store, run.embed is Some, run.warming(), false),
                None,
                None,
                None,
                None,
            ),
            "\n"@,
        ),
    );
    law_answer_has_its_head_and_foot(
        head,
        s.entries + docs,
        "\n\n"@,
        grouped,
        ask.budget,
        crate::context::source_foot(v, s, ask.snippet_budget is Some),
        messages,
    );
}

proof fn lemma_doc_sources(store: Store, hits: Seq<Weighted>)
    ensures
        forall|k: int|
            0 <= k < crate::docs::doc_entries(store, hits).len() ==> (#[trigger] crate::docs::doc_entries(
                store,
                hits,
            )[k]).source == MatchSource::Docs,
    decreases hits.len(),
{
    if hits.len() > 0 {
        lemma_doc_sources(store, hits.drop_last());
        let e = crate::docs::doc_entries(store, hits.drop_last());
        let all = crate::docs::doc_entries(store, hits);
        assert forall|k: int| 0 <= k < all.len() implies (#[trigger] all[k]).source == MatchSource::Docs by {
            if k < e.len() {
                assert(all[k] == e[k]);
            }
        }
    }
}

/// Every section of the documentation that is given stands in the answer, as long as the listing is plain and fits.
pub proof fn law_every_given_section_is_listed(
    store: Store,
    ask: Ask,
    run: Retrieval,
    all: Seq<Pick>,
    k: int,
)
    requires
        0 <= k < crate::docs::docs(store, run.docs).entries.len(),
        crate::sanitize::is_plain(listing(store, ask, run, all)),
        crate::width::blen(listing(store, ask, run, all)) <= crate::snippets::char_cap(ask.budget),
    ensures
        holds(grounded(store, ask, run, all), crate::docs::docs(store, run.docs).entries[k].line),
{
    let v = picked(all, run.selected@);
    let seeds = start(store, run.seeds);
    let own = primary(run.seeds);
    let grouped = run.grouping && v.len() > 4;
    let docs = crate::docs::docs(store, run.docs).entries;
    let line = docs[k].line;
    let head = crate::context::head_lines(store, run);
    let messages = crate::context::answer_signals(store, run, all, v);
    let cites = crate::docs::doc_entries(store, crate::docs::cited(run.docs));
    lemma_doc_sources(store, crate::docs::cited(run.docs));
    crate::seed_laws::law_docs_are_the_first_that_fit(cites, run.docs.budget_cap as nat);
    assert(docs[k] == cites[k]);
    assert(docs[k].source == MatchSource::Docs);
    if ask.snippets && crate::notes::filled(store.meta_value("repo_root"@)) is Some {
        let s = sourced(store, seeds, own, grouped, source_ceiling(ask, v), v);
        let entries = s.entries + docs;
        let i = s.entries.len() + k;
        assert(entries[i] == docs[k]);
        lemma_assembled_holds(entries, "\n\n"@, grouped, i);
        lemma_composed_holds(
            head,
            entries,
            "\n\n"@,
            grouped,
            ask.budget,
            crate::context::source_foot(v, s, ask.snippet_budget is Some),
            messages,
            line,
        );
    } else {
        let plain = plain_entries(store, seeds, own, grouped, v);
        let entries = plain + docs;
        let i = plain.len() + k;
        assert(entries[i] == docs[k]);
        lemma_assembled_holds(entries, "\n"@, grouped, i);
        lemma_composed_holds(
            head,
            entries,
            "\n"@,
            grouped,
            ask.budget,
            crate::context::plain_foot(v),
            messages,
            line,
        );
        lemma_composed_holds(
            head,
            entries,
            "\n"@,
            grouped,
            ask.budget,
            crate::context::rootless_foot(v),
            crate::text::join(
                crate::sections::signals(
                    crate::sections::health(store, run.embed is Some, run.warming(), false),
                    None,
                    None,
                    None,
                    None,
                ),
                "\n"@,
            ),
            line,
        );
    }
}

/// Where candidates had no room, an answer tells how many, and names the first ten of them with their scores.
pub proof fn law_candidates_without_room_are_told(v: Seq<Pick>, shown: Seq<Pick>, k: int)
    requires
        shown.len() < v.len(),
        0 <= k < crate::picks::left_out(v, shown).len(),
        k < 10,
    ensures
        crate::picks::overflow(v, shown) matches Some(t) && holds(
            t,
            "["@ + crate::text::dec((v.len() - shown.len()) as nat) + " more node(s) matched (score "@,
        ) && ({
            let p = crate::picks::left_out(v, shown)[k];
            holds(t, "  "@ + p.node.signature@ + "  score: "@ + p.hit.score@ + "  "@ + p.node.path@)
        }),
{
    let all = crate::picks::left_out(v, shown);
    let left = crate::seeds::first(all, 10);
    assert(left[k] == all[k]);
    let t = crate::picks::overflow(v, shown)->0;
    let n = "["@ + crate::text::dec((v.len() - shown.len()) as nat);
    let a = n + " more node(s) matched (score \u{2265} "@ + left.last().hit.score@
        + "), budget exhausted. Use a specific symbol name for deeper coverage, or call get_blast_radius / get_callers / get_dependencies for complete results.]\n"@;
    let ls = crate::picks::left_lines(left);
    let j = crate::text::join(ls, "\n"@);
    assert(t =~= a + j);
    crate::lines::lemma_join_holds(ls, "\n"@, k);
    crate::lines::lemma_holds_around(a, j, Seq::empty(), ls[k]);
    assert(a + j + Seq::<char>::empty() =~= t);
    let h = n + " more node(s) matched (score "@;
    reveal_strlit(" more node(s) matched (score ");
    reveal_strlit(" more node(s) matched (score \u{2265} ");
    let m = " more node(s) matched (score "@.len() as int;
    assert(" more node(s) matched (score \u{2265} "@.subrange(0, m) =~= " more node(s) matched (score "@);
    assert(t.subrange(0int, 0int + h.len()) =~= h) by {
        let full = n + " more node(s) matched (score \u{2265} "@;
        assert(t.subrange(0, full.len() as int) =~= full);
        assert(full.subrange(0, h.len() as int) =~= n + " more node(s) matched (score \u{2265} "@.subrange(
            0,
            m,
        ));
        assert(t.subrange(0, h.len() as int) =~= full.subrange(0, h.len() as int));
    }
}

/// A weak match, more seeds than are used, and a query about several things are told.
pub proof fn law_doubts_are_told(store: Store, run: Retrieval)
    ensures
        crate::context::weak_note(run) is Some <==> run.seeds.confidence
            == crate::retrieval::Confidence::Weak,
        crate::context::cap_note(run) is Some <==> run.seeds.seeds@.len() > 20,
        crate::context::concept_note(store, run) is Some <==> crate::clusters::spans_concepts(
            store,
            primary(run.seeds),
        ),
{
}

} // verus!
