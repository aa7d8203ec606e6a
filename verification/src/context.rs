//! Context for a query, within a token budget.

use vstd::prelude::*;

use crate::clusters::spans_several_concepts;
use crate::docs::build_docs_section;
use crate::global::{candidates, collect_global, Repo};
use crate::picks::{context_candidates, overflow_of, picked_of, total_of, Pick};
use crate::retrieval::{Confidence, Retrieval, SeedSet};
use crate::roles::{role_of, section_of, seed_source_display, via_of};
use crate::sanitize::{clean_of, is_valid_arg, sanitize_mcp_body_with_limit, wrap_envelope};
use crate::search::{infer_language_from_query, ranked_parts};
use crate::sections::{
    assemble_context_body, build_context_signals, build_context_signals_with_r2, format_node_line,
    health_of, match_source_header, node_place_of, omit_seed_via, Entry, EntryView, MatchSource,
};
use crate::seeds::{
    add_ids, dedup_adjacent_seeds, enrich_seeds_with_callers, Weighted, MAX_EMBED_SEEDS,
};
use crate::snippets::{char_cap_of, shown_of, SnippetMode, MAX_CONTEXT_BUDGET};
use crate::store::{opt_view, Store};
use crate::text::{cat2, cat3, dec_usize, join_strings};
use crate::width::byte_len;

verus! {

// ---------------------------------------------------------------- seeds

/// The seeds that the query itself gave.
pub open spec fn primary(set: SeedSet) -> Seq<u64> {
    crate::seeds::distinct_ids(set.weighted@)
}

/// The seeds of a walk: those of the query with their callers and the callers of these, without
/// those that the walk reaches from another.
pub open spec fn start(store: Store, set: SeedSet) -> Seq<Weighted> {
    crate::seeds::apart(
        store,
        crate::seeds::enriched(store, crate::seeds::enriched(store, set.weighted@, 15), 10),
    )
}

fn primary_of(set: &SeedSet) -> (r: Vec<u64>)
    ensures
        r@ == primary(*set),
{
    let mut ids: Vec<u64> = Vec::new();
    let ghost none = Seq::<Weighted>::empty();
    assert(none + set.weighted@ =~= set.weighted@);
    add_ids(&mut ids, &set.weighted, Ghost(none));
    ids
}

/// The seeds that a walk starts from.
pub fn start_seeds(store: &Store, set: &SeedSet) -> (r: Vec<Weighted>)
    ensures
        r@ == start(*store, *set),
{
    let one = enrich_seeds_with_callers(store, &set.weighted, 15);
    let two = enrich_seeds_with_callers(store, &one, 10);
    dedup_adjacent_seeds(store, &two)
}

/// What is left of a budget for code, once the documentation has its part.
pub fn code_budget(token_budget: usize, doc_tokens: usize) -> (r: usize)
    ensures
        r == (if token_budget >= doc_tokens {
            token_budget - doc_tokens
        } else {
            0
        }),
{
    if token_budget >= doc_tokens {
        token_budget - doc_tokens
    } else {
        0
    }
}

// ---------------------------------------------------------------- nothing found

/// What is said where nothing is found, or nothing that the caller may see.
pub open spec fn not_found(query: Seq<char>) -> Seq<char> {
    "No symbols matching '"@ + query + "' found in the graph."@
}

fn not_found_of(query: &str) -> (r: String)
    ensures
        r@ == not_found(query@),
{
    cat3("No symbols matching '", query, "' found in the graph.")
}

/// The lines of the seeds that are offered as guesses.
pub open spec fn guess_lines(store: Store, ids: Seq<u64>) -> Seq<Seq<char>>
    decreases ids.len(),
{
    if ids.len() == 0 {
        Seq::empty()
    } else {
        let g = guess_lines(store, ids.drop_last());
        match store.node(ids.last()) {
            Some(n) => g.push("  "@ + crate::sections::node_place(n)),
            None => g,
        }
    }
}

/// What is said where nothing is grounded: which terms are known, the nearest guesses, and what the
/// documentation says.
pub open spec fn abstention(store: Store, run: Retrieval) -> Seq<char> {
    let guesses = crate::seeds::first(run.seeds.seeds@, run.seeds.max_guesses as nat);
    let docs = crate::docs::docs(store, run.docs).entries;
    run.seeds.abstain@ + crate::text::join(guess_lines(store, guesses), "\n"@) + (if docs.len()
        > 0 {
        "\n\n"@ + crate::sections::heading(MatchSource::Docs) + "\n"@ + crate::text::join(
            crate::sections::entry_lines(docs),
            "\n"@,
        )
    } else {
        Seq::empty()
    })
}

fn guesses_of(store: &Store, set: &SeedSet) -> (r: String)
    ensures
        r@ == crate::text::join(
            guess_lines(
                *store,
                crate::seeds::first(set.seeds@, set.max_guesses as nat),
            ),
            "\n"@,
        ),
{
    let ghost ids = crate::seeds::first(set.seeds@, set.max_guesses as nat);
    let mut lines: Vec<String> = Vec::new();
    let mut i: usize = 0;
    assert(crate::text::views(lines@) =~= guess_lines(*store, ids.take(0)));
    while i < set.seeds.len() && i < set.max_guesses
        invariant
            i <= ids.len(),
            i <= set.seeds@.len(),
            i <= set.max_guesses,
            ids == crate::seeds::first(set.seeds@, set.max_guesses as nat),
            crate::text::views(lines@) == guess_lines(*store, ids.take(i as int)),
        decreases set.seeds@.len() - i,
    {
        assert(ids.take(i + 1).drop_last() =~= ids.take(i as int));
        assert(ids[i as int] == set.seeds@[i as int]);
        if let Some(n) = store.get_node(set.seeds[i]) {
            let place = node_place_of(n);
            let line = cat2("  ", place.as_str());
            proof {
                crate::text::lemma_views_push(lines@, line);
            }
            lines.push(line);
        }
        i += 1;
    }
    assert(ids.take(i as int) =~= ids);
    join_strings(&lines, "\n")
}

fn abstention_of(store: &Store, run: &Retrieval) -> (r: String)
    ensures
        r@ == abstention(*store, *run),
{
    let (docs, _tokens) = build_docs_section(store, &run.docs);
    let ghost dv = crate::docs::docs(*store, run.docs).entries;
    assert(dv.len() == docs@.len());
    let guesses = guesses_of(store, &run.seeds);
    let mut msg = cat2(run.seeds.abstain.as_str(), guesses.as_str());
    let mut tail = String::new();
    assert(tail@ =~= Seq::<char>::empty());
    if docs.len() > 0 {
        let mut lines: Vec<String> = Vec::new();
        let mut i: usize = 0;
        while i < docs.len()
            invariant
                i <= docs@.len(),
                dv == crate::sections::entry_views(docs@),
                lines@.len() == i,
                forall|j: int| 0 <= j < i ==> #[trigger] lines@[j]@ == dv[j].line,
            decreases docs@.len() - i,
        {
            assert(dv[i as int] == docs@[i as int]@);
            lines.push(docs[i].line.clone());
            i += 1;
        }
        assert(crate::text::views(lines@) =~= crate::sections::entry_lines(dv));
        let all = join_strings(&lines, "\n");
        tail = cat3("\n\n", match_source_header(MatchSource::Docs), "\n");
        tail.append(all.as_str());
    }
    msg.append(tail.as_str());
    msg
}

// ---------------------------------------------------------------- the head of an answer

/// The state of the semantic search in one word.
pub open spec fn embed_status(run: Retrieval) -> Seq<char> {
    if run.degraded() {
        "degraded"@
    } else if run.warming() {
        "warming"@
    } else if run.embed is Some {
        "on"@
    } else {
        "off"@
    }
}

/// Which searches gave the seeds.
pub open spec fn tier(run: Retrieval) -> Seq<char> {
    if run.embed is Some && run.seeds.seeds@.len() > 0 {
        "exact+lexical+semantic"@
    } else {
        "exact+lexical"@
    }
}

/// How many of the terms are matched.
pub open spec fn count_true(v: Seq<bool>) -> nat
    decreases v.len(),
{
    if v.len() == 0 {
        0
    } else {
        count_true(v.drop_last()) + if v.last() {
            1nat
        } else {
            0
        }
    }
}

/// The commit that the index reflects.
pub open spec fn index_commit(store: Store) -> Seq<char> {
    match store.meta_value("last_commit"@) {
        Some(c) => c,
        None => "unknown"@,
    }
}

/// What the answer rests on.
pub open spec fn head_lines(store: Store, run: Retrieval) -> Seq<char> {
    "[index commit: "@ + index_commit(store) + ", embeddings: "@ + embed_status(run) + "]\n"@
        + "[retrieval: "@ + tier(run) + " | coverage "@ + crate::text::dec(
        count_true(run.seeds.resolved@),
    ) + "/"@ + crate::text::dec(run.seeds.resolved@.len()) + " | confidence: "@ + run.seeds.label@
        + " ]\n"@
}

fn count_true_of(v: &Vec<bool>) -> (n: usize)
    ensures
        n == count_true(v@),
{
    let mut n: usize = 0;
    let mut i: usize = 0;
    while i < v.len()
        invariant
            i <= v@.len(),
            n <= i,
            n == count_true(v@.take(i as int)),
        decreases v@.len() - i,
    {
        assert(v@.take(i + 1).drop_last() =~= v@.take(i as int));
        if v[i] {
            n += 1;
        }
        i += 1;
    }
    assert(v@.take(i as int) =~= v@);
    n
}

fn head_lines_of(store: &Store, run: &Retrieval) -> (r: String)
    ensures
        r@ == head_lines(*store, *run),
{
    let commit: &str = match store.get_meta("last_commit") {
        Some(c) => c.as_str(),
        None => "unknown",
    };
    let status: &str = if run.is_degraded() {
        "degraded"
    } else if run.is_warming() {
        "warming"
    } else if run.embed.is_some() {
        "on"
    } else {
        "off"
    };
    let tier: &str = if run.embed.is_some() && run.seeds.seeds.len() > 0 {
        "exact+lexical+semantic"
    } else {
        "exact+lexical"
    };
    let a = dec_usize(count_true_of(&run.seeds.resolved));
    let b = dec_usize(run.seeds.resolved.len());
    let mut r = cat3("[index commit: ", commit, ", embeddings: ");
    r.append(status);
    r.append("]\n");
    r.append("[retrieval: ");
    r.append(tier);
    r.append(" | coverage ");
    r.append(a.as_str());
    r.append("/");
    r.append(b.as_str());
    r.append(" | confidence: ");
    r.append(run.seeds.label.as_str());
    r.append(" ]\n");
    r
}

// ---------------------------------------------------------------- the entries of an answer

/// The name of the search that found a node as a seed.
pub open spec fn source_of(p: Pick) -> Option<Seq<char>> {
    match p.hit.source {
        Some(s) => Some(crate::roles::source_name(s)),
        None => None,
    }
}

/// The line of a node in an answer.
pub open spec fn pick_line(
    store: Store,
    seeds: Seq<Weighted>,
    own: Seq<u64>,
    grouped: bool,
    p: Pick,
) -> Seq<char> {
    let ms = crate::roles::section(p.node, p.hit.source, own);
    crate::sections::node_line(
        p.node,
        crate::roles::role(store, seeds, own, p.node.id).name(),
        Some(p.hit.shown@),
        crate::roles::via(store, seeds, p.node.id),
        source_of(p),
        crate::sections::omits_via(grouped, ms),
    )
}

/// The entry of a node, with what stands below its line.
pub open spec fn pick_entry(
    store: Store,
    seeds: Seq<Weighted>,
    own: Seq<u64>,
    grouped: bool,
    p: Pick,
    below: Seq<char>,
) -> EntryView {
    EntryView {
        source: crate::roles::section(p.node, p.hit.source, own),
        weight: p.hit.shown_weight as nat,
        line: pick_line(store, seeds, own, grouped, p) + below,
    }
}

/// The entries of the nodes, without source.
pub open spec fn plain_entries(
    store: Store,
    seeds: Seq<Weighted>,
    own: Seq<u64>,
    grouped: bool,
    v: Seq<Pick>,
) -> Seq<EntryView> {
    Seq::new(
        v.len(),
        |i: int| pick_entry(store, seeds, own, grouped, v[i], Seq::empty()),
    )
}

fn entry_of(
    store: &Store,
    seeds: &Vec<Weighted>,
    own: &Vec<u64>,
    grouped: bool,
    p: &Pick,
    below: &str,
) -> (e: Entry)
    ensures
        e@ == pick_entry(*store, seeds@, own@, grouped, *p, below@),
{
    let ms = section_of(&p.node, p.hit.source, own);
    let role = role_of(store, seeds, own, p.node.id);
    let via = via_of(store, seeds, p.node.id);
    let source: Option<&str> = match p.hit.source {
        Some(s) => Some(seed_source_display(s)),
        None => None,
    };
    let mut line = format_node_line(
        &p.node,
        role.label(),
        Some(p.hit.shown.as_str()),
        via,
        source,
        omit_seed_via(grouped, ms),
    );
    line.append(below);
    Entry { source: ms, weight: p.hit.shown_weight, line }
}

fn plain_entries_of(
    store: &Store,
    seeds: &Vec<Weighted>,
    own: &Vec<u64>,
    grouped: bool,
    v: &Vec<Pick>,
) -> (r: Vec<Entry>)
    ensures
        crate::sections::entry_views(r@) == plain_entries(*store, seeds@, own@, grouped, v@),
{
    let ghost want = plain_entries(*store, seeds@, own@, grouped, v@);
    let mut r: Vec<Entry> = Vec::new();
    let mut i: usize = 0;
    while i < v.len()
        invariant
            i <= v@.len(),
            want == plain_entries(*store, seeds@, own@, grouped, v@),
            r@.len() == i,
            forall|j: int| 0 <= j < i ==> #[trigger] r@[j]@ == want[j],
        decreases v@.len() - i,
    {
        let e = entry_of(store, seeds, own, grouped, &v[i], "");
        proof {
            reveal_strlit("");
            assert(""@ =~= Seq::<char>::empty());
        }
        r.push(e);
        i += 1;
    }
    assert(crate::sections::entry_views(r@) =~= want);
    r
}

/// Entries with source, as far as the budget goes.
pub struct Sourced {
    pub entries: Seq<EntryView>,
    pub tokens: nat,
    /// How many show any source.
    pub count: nat,
}

/// The source of a node where it fits what is left of the budget.
pub open spec fn fitting(store: Store, p: Pick, used: nat, ceiling: nat) -> Option<Seq<char>> {
    match crate::snippets::shown(store, crate::snippets::item(p.node), SnippetMode::Auto) {
        Some(code) => if used < ceiling && used + crate::width::blen(code) / 4 + 1 <= ceiling {
            Some(code)
        } else {
            None
        },
        None => None,
    }
}

/// The entries with one more node.
pub open spec fn with_source(
    store: Store,
    seeds: Seq<Weighted>,
    own: Seq<u64>,
    grouped: bool,
    ceiling: nat,
    s: Sourced,
    p: Pick,
) -> Sourced {
    match fitting(store, p, s.tokens, ceiling) {
        Some(code) => Sourced {
            entries: s.entries.push(
                pick_entry(store, seeds, own, grouped, p, "\n---\n"@ + code),
            ),
            tokens: s.tokens + crate::width::blen(code) / 4 + 1,
            count: s.count + 1,
        },
        None => Sourced {
            entries: s.entries.push(pick_entry(store, seeds, own, grouped, p, Seq::empty())),
            ..s
        },
    }
}

/// The entries of the nodes, with source as far as the budget goes.
pub open spec fn sourced(
    store: Store,
    seeds: Seq<Weighted>,
    own: Seq<u64>,
    grouped: bool,
    ceiling: nat,
    v: Seq<Pick>,
) -> Sourced
    decreases v.len(),
{
    if v.len() == 0 {
        Sourced { entries: Seq::empty(), tokens: 0, count: 0 }
    } else {
        with_source(
            store,
            seeds,
            own,
            grouped,
            ceiling,
            sourced(store, seeds, own, grouped, ceiling, v.drop_last()),
            v.last(),
        )
    }
}

fn sourced_of(
    store: &Store,
    seeds: &Vec<Weighted>,
    own: &Vec<u64>,
    grouped: bool,
    ceiling: usize,
    v: &Vec<Pick>,
) -> (r: (Vec<Entry>, usize, usize))
    ensures
        crate::sections::entry_views(r.0@) == sourced(
            *store,
            seeds@,
            own@,
            grouped,
            ceiling as nat,
            v@,
        ).entries,
        r.1 == sourced(*store, seeds@, own@, grouped, ceiling as nat, v@).tokens,
        r.2 == sourced(*store, seeds@, own@, grouped, ceiling as nat, v@).count,
{
    let mut r: Vec<Entry> = Vec::new();
    let mut used: usize = 0;
    let mut count: usize = 0;
    let mut i: usize = 0;
    assert(crate::sections::entry_views(r@) =~= Seq::<EntryView>::empty());
    while i < v.len()
        invariant
            i <= v@.len(),
            count <= i,
            used <= ceiling,
            crate::sections::entry_views(r@) == sourced(
                *store,
                seeds@,
                own@,
                grouped,
                ceiling as nat,
                v@.take(i as int),
            ).entries,
            used == sourced(
                *store,
                seeds@,
                own@,
                grouped,
                ceiling as nat,
                v@.take(i as int),
            ).tokens,
            count == sourced(
                *store,
                seeds@,
                own@,
                grouped,
                ceiling as nat,
                v@.take(i as int),
            ).count,
        decreases v@.len() - i,
    {
        assert(v@.take(i + 1).drop_last() =~= v@.take(i as int));
        let p = &v[i];
        let mut below = String::new();
        assert(below@ =~= Seq::<char>::empty());
        if used < ceiling {
            if let Some(code) = shown_of(store, &p.node, SnippetMode::Auto) {
                let cost: usize = byte_len(code.as_str()) / 4 + 1;
                if cost <= ceiling - used {
                    used += cost;
                    count += 1;
                    below = cat2("\n---\n", code.as_str());
                }
            }
        }
        let e = entry_of(store, seeds, own, grouped, p, below.as_str());
        let ghost was = r@;
        let ghost x = e@;
        r.push(e);
        assert(crate::sections::entry_views(r@) =~= crate::sections::entry_views(was).push(x));
        i += 1;
    }
    assert(v@.take(i as int) =~= v@);
    (r, used, count)
}

// ---------------------------------------------------------------- the answer

/// What an answer is asked for.
pub struct Ask {
    pub budget: nat,
    /// The source of the nodes is shown.
    pub snippets: bool,
    /// A budget of its own for the source.
    pub snippet_budget: Option<nat>,
}

/// The text of an answer from its parts. All of it is cleaned; only the entries are bounded.
pub open spec fn composed(
    head: Seq<char>,
    entries: Seq<EntryView>,
    sep: Seq<char>,
    grouped: bool,
    budget: nat,
    foot: Seq<char>,
    signals: Seq<char>,
) -> Seq<char> {
    crate::sanitize::clean(
        head + crate::sanitize::body(
            crate::sections::assembled(entries, sep, grouped),
            crate::snippets::char_cap(budget),
        ) + "\n\n"@ + foot + (if signals.len() == 0 {
            Seq::empty()
        } else {
            "\n"@ + signals
        }),
    )
}

fn compose(
    head: &str,
    entries: &Vec<Entry>,
    sep: &str,
    grouped: bool,
    budget: usize,
    foot: &str,
    signals: &str,
) -> (r: String)
    ensures
        r@ == composed(
            head@,
            crate::sections::entry_views(entries@),
            sep@,
            grouped,
            budget as nat,
            foot@,
            signals@,
        ),
{
    let raw = assemble_context_body(entries, sep, grouped);
    let own = sanitize_mcp_body_with_limit(raw.as_str(), char_cap_of(budget));
    let mut r = cat3(head, own.as_str(), "\n\n");
    r.append(foot);
    let mut tail = String::new();
    assert(tail@ =~= Seq::<char>::empty());
    if !signals.is_empty() {
        tail = cat2("\n", signals);
    }
    r.append(tail.as_str());
    clean_of(r.as_str())
}

/// What is said of a weak match.
pub open spec fn weak_note(run: Retrieval) -> Option<Seq<char>> {
    if run.seeds.confidence == Confidence::Weak {
        Some(
            "[note: no strong match found, results are weak/structural and may not be relevant to this query]"@,
        )
    } else {
        None
    }
}

/// What is said of more seeds than the cap.
pub open spec fn cap_note(run: Retrieval) -> Option<Seq<char>> {
    if run.seeds.seeds@.len() > MAX_EMBED_SEEDS {
        Some(
            "[note: query matched more seed candidates than the cap, consider narrowing the query or calling get_context once per concept]"@,
        )
    } else {
        None
    }
}

/// What is said of a query about several things.
pub open spec fn concept_note(store: Store, run: Retrieval) -> Option<Seq<char>> {
    if crate::clusters::spans_concepts(store, primary(run.seeds)) {
        Some(
            "[note: query may span multiple concepts, results show the dominant cluster only. Try one concept per get_context call for complete coverage.]"@,
        )
    } else {
        None
    }
}

/// The messages below an answer.
pub open spec fn answer_signals(store: Store, run: Retrieval, all: Seq<Pick>, shown: Seq<Pick>) -> Seq<
    char,
> {
    crate::text::join(
        crate::sections::signals(
            crate::sections::health(store, run.embed is Some, run.warming(), run.degraded()),
            crate::picks::overflow(all, shown),
            cap_note(run),
            weak_note(run),
            concept_note(store, run),
        ),
        "\n"@,
    )
}

fn answer_signals_of(store: &Store, run: &Retrieval, all: &Vec<Pick>, shown: &Vec<Pick>) -> (r: String)
    ensures
        r@ == answer_signals(*store, *run, all@, shown@),
{
    let h = health_of(store, run.embed.is_some(), run.is_warming(), run.is_degraded());
    let overflow = overflow_of(all, shown);
    let over: Option<&str> = match &overflow {
        Some(s) => Some(s.as_str()),
        None => None,
    };
    let cap: Option<&str> = if run.seeds.seeds.len() > MAX_EMBED_SEEDS {
        Some(
            "[note: query matched more seed candidates than the cap, consider narrowing the query or calling get_context once per concept]",
        )
    } else {
        None
    };
    let weak: Option<&str> = if run.seeds.confidence == Confidence::Weak {
        Some(
            "[note: no strong match found, results are weak/structural and may not be relevant to this query]",
        )
    } else {
        None
    };
    let own = primary_of(&run.seeds);
    let concepts: Option<&str> = if spans_several_concepts(store, &own) {
        Some(
            "[note: query may span multiple concepts, results show the dominant cluster only. Try one concept per get_context call for complete coverage.]",
        )
    } else {
        None
    };
    build_context_signals_with_r2(h, over, cap, concepts, weak)
}

/// The line below an answer without source.
pub open spec fn plain_foot(v: Seq<Pick>) -> Seq<char> {
    "["@ + crate::text::dec(v.len()) + " nodes, ~"@ + crate::text::dec(crate::picks::total(v))
        + " tokens]"@
}

/// The line below an answer whose source is not available.
pub open spec fn rootless_foot(v: Seq<Pick>) -> Seq<char> {
    "["@ + crate::text::dec(v.len()) + " nodes, ~"@ + crate::text::dec(crate::picks::total(v))
        + " tokens. Run `travsr init` to enable inline snippets]"@
}

/// The line below an answer with source.
pub open spec fn source_foot(v: Seq<Pick>, s: Sourced, separate: bool) -> Seq<char> {
    "["@ + crate::text::dec(v.len()) + " nodes, "@ + crate::text::dec(s.count)
        + " with snippets, ~"@ + crate::text::dec(crate::picks::total(v))
        + " metadata-tokens + ~"@ + crate::text::dec(s.tokens) + " snippet-tokens ("@ + (
    if separate {
        "separate"@
    } else {
        "shared"@
    }) + " budget)]"@
}

/// The budget for source: its own, or what the nodes leave of the other.
pub open spec fn source_ceiling(ask: Ask, v: Seq<Pick>) -> nat {
    match ask.snippet_budget {
        Some(b) => b,
        None => if ask.budget >= crate::picks::total(v) {
            (ask.budget - crate::picks::total(v)) as nat
        } else {
            0
        },
    }
}

/// The answer over nodes that compete for the budget.
pub open spec fn grounded(store: Store, ask: Ask, run: Retrieval, all: Seq<Pick>) -> Seq<char> {
    let v = crate::picks::picked(all, run.selected@);
    let seeds = start(store, run.seeds);
    let own = primary(run.seeds);
    let grouped = run.grouping && v.len() > 4;
    let docs = crate::docs::docs(store, run.docs).entries;
    let head = head_lines(store, run);
    if !ask.snippets {
        composed(
            head,
            plain_entries(store, seeds, own, grouped, v) + docs,
            "\n"@,
            grouped,
            ask.budget,
            plain_foot(v),
            answer_signals(store, run, all, v),
        )
    } else if crate::notes::filled(store.meta_value("repo_root"@)) is None {
        composed(
            head,
            plain_entries(store, seeds, own, grouped, v) + docs,
            "\n"@,
            grouped,
            ask.budget,
            rootless_foot(v),
            crate::text::join(
                crate::sections::signals(
                    crate::sections::health(store, run.embed is Some, run.warming(), false),
                    None,
                    None,
                    None,
                    None,
                ),
                "\n"@,
            ),
        )
    } else {
        let s = sourced(store, seeds, own, grouped, source_ceiling(ask, v), v);
        composed(
            head,
            s.entries + docs,
            "\n\n"@,
            grouped,
            ask.budget,
            source_foot(v, s, ask.snippet_budget is Some),
            answer_signals(store, run, all, v),
        )
    }
}

/// The context for a query. Nothing found and nothing that the caller may see give one answer.
pub open spec fn context(
    store: Store,
    query: Seq<char>,
    ask: Ask,
    denied: Seq<u64>,
    run: Retrieval,
) -> Seq<char> {
    let cap = crate::snippets::char_cap(ask.budget);
    if !crate::sanitize::arg_ok(query) {
        Seq::empty()
    } else if ask.budget > MAX_CONTEXT_BUDGET {
        "token_budget exceeds maximum allowed value"@
    } else if ask.budget == 0 {
        Seq::empty()
    } else if run.seeds.confidence == Confidence::Abstain {
        crate::sanitize::body(abstention(store, run), cap)
    } else if start(store, run.seeds).len() == 0 {
        crate::sanitize::body(not_found(query), cap)
    } else {
        match run.ranked {
            Some(hits) => {
                let all = crate::picks::candidates(store, hits@, denied);
                if all.len() == 0 {
                    crate::sanitize::body(not_found(query), cap)
                } else {
                    grounded(store, ask, run, all)
                }
            },
            None => Seq::empty(),
        }
    }
}

pub open spec fn opt_nat(n: Option<usize>) -> Option<nat> {
    match n {
        Some(x) => Some(x as nat),
        None => None,
    }
}

pub open spec fn asked(budget: usize, snippets: bool, snippet_budget: Option<usize>) -> Ask {
    Ask { budget: budget as nat, snippets, snippet_budget: opt_nat(snippet_budget) }
}

fn join_entries(mut a: Vec<Entry>, mut b: Vec<Entry>) -> (r: Vec<Entry>)
    ensures
        crate::sections::entry_views(r@) == crate::sections::entry_views(a@)
            + crate::sections::entry_views(b@),
{
    let ghost x = a@;
    let ghost y = b@;
    a.append(&mut b);
    assert(crate::sections::entry_views(x + y) =~= crate::sections::entry_views(x)
        + crate::sections::entry_views(y));
    a
}

fn plain_foot_of(v: &Vec<Pick>) -> (r: String)
    ensures
        r@ == plain_foot(v@),
{
    let n = dec_usize(v.len());
    let t = dec_usize(total_of(v));
    let mut r = cat3("[", n.as_str(), " nodes, ~");
    r.append(t.as_str());
    r.append(" tokens]");
    r
}

fn rootless_foot_of(v: &Vec<Pick>) -> (r: String)
    ensures
        r@ == rootless_foot(v@),
{
    let n = dec_usize(v.len());
    let t = dec_usize(total_of(v));
    let mut r = cat3("[", n.as_str(), " nodes, ~");
    r.append(t.as_str());
    r.append(" tokens. Run `travsr init` to enable inline snippets]");
    r
}

fn source_foot_of(v: &Vec<Pick>, tokens: usize, count: usize, separate: bool, Ghost(s): Ghost<
    Sourced,
>) -> (r: String)
    requires
        tokens == s.tokens,
        count == s.count,
    ensures
        r@ == source_foot(v@, s, separate),
{
    let n = dec_usize(v.len());
    let c = dec_usize(count);
    let t = dec_usize(total_of(v));
    let k = dec_usize(tokens);
    let mut r = cat3("[", n.as_str(), " nodes, ");
    r.append(c.as_str());
    r.append(" with snippets, ~");
    r.append(t.as_str());
    r.append(" metadata-tokens + ~");
    r.append(k.as_str());
    r.append(" snippet-tokens (");
    r.append(if separate {
        "separate"
    } else {
        "shared"
    });
    r.append(" budget)]");
    r
}

fn has_root(store: &Store) -> (r: bool)
    ensures
        r == crate::notes::filled(store.meta_value("repo_root"@)) is Some,
{
    match store.get_meta("repo_root") {
        Some(s) => !s.as_str().is_empty(),
        None => false,
    }
}

fn grounded_of(
    store: &Store,
    token_budget: usize,
    include_snippets: bool,
    snippet_budget: Option<usize>,
    run: &Retrieval,
    all: &Vec<Pick>,
) -> (r: String)
    ensures
        r@ == grounded(
            *store,
            asked(token_budget, include_snippets, snippet_budget),
            *run,
            all@,
        ),
{
    let v = picked_of(all, &run.selected);
    let seeds = start_seeds(store, &run.seeds);
    let own = primary_of(&run.seeds);
    let grouped = run.grouping && v.len() > 4;
    let (docs, _tokens) = build_docs_section(store, &run.docs);
    let head = head_lines_of(store, run);
    if !include_snippets {
        let plain = plain_entries_of(store, &seeds, &own, grouped, &v);
        let entries = join_entries(plain, docs);
        let foot = plain_foot_of(&v);
        let signals = answer_signals_of(store, run, all, &v);
        return compose(
            head.as_str(),
            &entries,
            "\n",
            grouped,
            token_budget,
            foot.as_str(),
            signals.as_str(),
        );
    }
    if !has_root(store) {
        let plain = plain_entries_of(store, &seeds, &own, grouped, &v);
        let entries = join_entries(plain, docs);
        let foot = rootless_foot_of(&v);
        let signals = build_context_signals(
            store,
            run.embed.is_some(),
            run.is_warming(),
            false,
            None,
            None,
        );
        return compose(
            head.as_str(),
            &entries,
            "\n",
            grouped,
            token_budget,
            foot.as_str(),
            signals.as_str(),
        );
    }
    let ghost ask = asked(token_budget, include_snippets, snippet_budget);
    let ceiling: usize = match snippet_budget {
        Some(b) => b,
        None => code_budget(token_budget, total_of(&v)),
    };
    assert(ceiling == source_ceiling(ask, v@));
    let (own_entries, tokens, count) = sourced_of(store, &seeds, &own, grouped, ceiling, &v);
    let entries = join_entries(own_entries, docs);
    let foot = source_foot_of(
        &v,
        tokens,
        count,
        snippet_budget.is_some(),
        Ghost(sourced(*store, seeds@, own@, grouped, ceiling as nat, v@)),
    );
    let signals = answer_signals_of(store, run, all, &v);
    compose(
        head.as_str(),
        &entries,
        "\n\n",
        grouped,
        token_budget,
        foot.as_str(),
        signals.as_str(),
    )
}

/// The context for a query from what was found for it. `denied` lists the nodes that the caller may
/// not see.
pub fn get_context_body(
    store: &Store,
    query: &str,
    token_budget: usize,
    denied: &Vec<u64>,
    include_snippets: bool,
    snippet_budget: Option<usize>,
    run: &Retrieval,
) -> (r: String)
    ensures
        r@ == context(
            *store,
            query@,
            asked(token_budget, include_snippets, snippet_budget),
            denied@,
            *run,
        ),
        !r@.contains('<') && !r@.contains('>'),
{
    proof {
        law_context_is_sanitized(
            *store,
            query@,
            asked(token_budget, include_snippets, snippet_budget),
            denied@,
            *run,
        );
    }
    if !is_valid_arg(query) {
        return String::new();
    }
    if token_budget > MAX_CONTEXT_BUDGET {
        return "token_budget exceeds maximum allowed value".to_owned();
    }
    if token_budget == 0 {
        return String::new();
    }
    let cap: usize = char_cap_of(token_budget);
    if run.seeds.confidence == Confidence::Abstain {
        let msg = abstention_of(store, run);
        return sanitize_mcp_body_with_limit(msg.as_str(), cap);
    }
    let seeds = start_seeds(store, &run.seeds);
    if seeds.len() == 0 {
        let msg = not_found_of(query);
        return sanitize_mcp_body_with_limit(msg.as_str(), cap);
    }
    match &run.ranked {
        Some(hits) => {
            let all = context_candidates(store, hits, denied);
            if all.len() == 0 {
                let msg = not_found_of(query);
                return sanitize_mcp_body_with_limit(msg.as_str(), cap);
            }
            grounded_of(store, token_budget, include_snippets, snippet_budget, run, &all)
        },
        None => String::new(),
    }
}

/// The context for a query from the record of what was found; nothing where there is no record.
pub open spec fn recorded_context(
    store: Store,
    query: Seq<char>,
    ask: Ask,
    denied: Seq<u64>,
    embed: bool,
) -> Seq<char> {
    match crate::retrieval::retrieval_of(store.retrievals@, query, embed) {
        Some(run) => context(store, query, ask, denied, run),
        None => if crate::sanitize::arg_ok(query) && ask.budget > MAX_CONTEXT_BUDGET {
            "token_budget exceeds maximum allowed value"@
        } else {
            Seq::empty()
        },
    }
}

fn recorded_context_of(
    store: &Store,
    query: &str,
    token_budget: usize,
    denied: &Vec<u64>,
    include_snippets: bool,
    snippet_budget: Option<usize>,
    embed: bool,
) -> (r: String)
    ensures
        r@ == recorded_context(
            *store,
            query@,
            asked(token_budget, include_snippets, snippet_budget),
            denied@,
            embed,
        ),
{
    match store.retrieval(query, embed) {
        Some(run) => get_context_body(
            store,
            query,
            token_budget,
            denied,
            include_snippets,
            snippet_budget,
            run,
        ),
        None => {
            if is_valid_arg(query) && token_budget > MAX_CONTEXT_BUDGET {
                "token_budget exceeds maximum allowed value".to_owned()
            } else {
                String::new()
            }
        },
    }
}

/// The context for a query to a caller who may not see some of the nodes.
pub fn get_context_authed(
    store: &Store,
    query: &str,
    token_budget: usize,
    denied: &Vec<u64>,
    include_snippets: bool,
    snippet_budget: Option<usize>,
) -> (r: String)
    ensures
        r@ == crate::sanitize::envelope(
            recorded_context(
                *store,
                query@,
                asked(token_budget, include_snippets, snippet_budget),
                denied@,
                false,
            ),
        ),
{
    let body = recorded_context_of(
        store,
        query,
        token_budget,
        denied,
        include_snippets,
        snippet_budget,
        false,
    );
    wrap_envelope(body.as_str())
}

/// The context for a query.
pub fn get_context(
    store: &Store,
    query: &str,
    token_budget: usize,
    include_snippets: bool,
    snippet_budget: Option<usize>,
) -> (r: String)
    ensures
        r@ == crate::sanitize::envelope(
            recorded_context(
                *store,
                query@,
                asked(token_budget, include_snippets, snippet_budget),
                Seq::empty(),
                false,
            ),
        ),
{
    let denied: Vec<u64> = Vec::new();
    get_context_authed(store, query, token_budget, &denied, include_snippets, snippet_budget)
}

/// The context for a query, found with the help of a semantic search.
pub fn get_context_embed(
    store: &Store,
    query: &str,
    token_budget: usize,
    include_snippets: bool,
    snippet_budget: Option<usize>,
) -> (r: String)
    ensures
        r@ == crate::sanitize::envelope(
            recorded_context(
                *store,
                query@,
                asked(token_budget, include_snippets, snippet_budget),
                Seq::empty(),
                true,
            ),
        ),
{
    let denied: Vec<u64> = Vec::new();
    let body = recorded_context_of(
        store,
        query,
        token_budget,
        &denied,
        include_snippets,
        snippet_budget,
        true,
    );
    wrap_envelope(body.as_str())
}

/// The context for a query without an envelope.
pub fn get_context_raw(
    store: &Store,
    query: &str,
    token_budget: usize,
    include_snippets: bool,
    snippet_budget: Option<usize>,
) -> (r: String)
    ensures
        r@ == recorded_context(
            *store,
            query@,
            asked(token_budget, include_snippets, snippet_budget),
            Seq::empty(),
            false,
        ),
{
    let denied: Vec<u64> = Vec::new();
    recorded_context_of(
        store,
        query,
        token_budget,
        &denied,
        include_snippets,
        snippet_budget,
        false,
    )
}

// ---------------------------------------------------------------- over several repositories

/// The context from one repository under its name, unless it is the only one.
pub open spec fn titled(name: Seq<char>, body: Seq<char>, single: bool) -> Seq<char> {
    if body.len() == 0 || single {
        body
    } else {
        "[repo: "@ + name + "]\n"@ + body
    }
}

/// The context from one of the addressed repositories.
pub open spec fn context_part(repo: Repo, store: Store, single: bool, query: Seq<char>, ask: Ask) -> Seq<
    char,
> {
    titled(repo.name@, recorded_context(store, query, ask, Seq::empty(), false), single)
}

pub open spec fn context_parts(query: Seq<char>, ask: Ask) -> spec_fn(Repo, Store, bool) -> Seq<char> {
    |r: Repo, s: Store, single: bool| context_part(r, s, single, query, ask)
}

/// The context from each of the repositories with its size in bytes; empty ones are left out.
pub open spec fn fan_out(repos: Seq<Repo>, places: Seq<int>, n: int, query: Seq<char>, ask: Ask) -> Seq<
    (nat, Seq<char>),
>
    decreases n,
{
    if n <= 0 {
        Seq::empty()
    } else {
        let rest = fan_out(repos, places, n - 1, query, ask);
        match repos[places[n - 1]].store {
            Some(store) => {
                let own = recorded_context(store, query, ask, Seq::empty(), false);
                if own.len() == 0 {
                    rest
                } else {
                    rest.push(
                        (
                            crate::width::blen(own),
                            titled(repos[places[n - 1]].name@, own, places.len() == 1),
                        ),
                    )
                }
            },
            None => rest,
        }
    }
}

/// The context over the registered repositories, the richest first.
pub open spec fn context_global(
    repos: Seq<Repo>,
    query: Seq<char>,
    ask: Ask,
    repo: Option<Seq<char>>,
) -> Seq<char> {
    let term = crate::search::inferred(query).0;
    if !crate::sanitize::arg_ok(query) {
        Seq::empty()
    } else if ask.budget > MAX_CONTEXT_BUDGET {
        "token_budget exceeds maximum allowed value"@
    } else if repo is Some {
        crate::global::gathered(repos, repo, context_parts(term, ask))
    } else {
        let places = crate::global::addressed(repos, None);
        crate::search::most_first(
            fan_out(repos, places, places.len() as int, term, ask),
            "\n\n"@,
        )
    }
}

fn title(name: &str, body: String, single: bool) -> (r: String)
    ensures
        r@ == titled(name@, body@, single),
{
    if body.as_str().is_empty() || single {
        return body;
    }
    let mut r = cat3("[repo: ", name, "]\n");
    r.append(body.as_str());
    r
}

fn fan_out_of(
    repos: &Vec<Repo>,
    query: &str,
    token_budget: usize,
    include_snippets: bool,
    snippet_budget: Option<usize>,
) -> (r: String)
    ensures
        r@ == crate::search::most_first(
            fan_out(
                repos@,
                crate::global::addressed(repos@, None),
                crate::global::addressed(repos@, None).len() as int,
                query@,
                asked(token_budget, include_snippets, snippet_budget),
            ),
            "\n\n"@,
        ),
{
    let picks = candidates(repos, None);
    let ghost places = crate::global::addressed(repos@, None);
    let ghost ask = asked(token_budget, include_snippets, snippet_budget);
    assert(places.len() == picks@.len());
    let single = picks.len() == 1;
    let mut counts: Vec<usize> = Vec::new();
    let mut texts: Vec<String> = Vec::new();
    let mut k: usize = 0;
    while k < picks.len()
        invariant
            k <= picks@.len(),
            places == crate::rank::ints(picks@),
            places.len() == picks@.len(),
            single == (places.len() == 1),
            ask == asked(token_budget, include_snippets, snippet_budget),
            forall|j: int| 0 <= j < picks@.len() ==> #[trigger] picks@[j] < repos@.len(),
            counts@.len() == fan_out(repos@, places, k as int, query@, ask).len(),
            texts@.len() == counts@.len(),
            forall|i: int|
                0 <= i < counts@.len() ==> (#[trigger] fan_out(
                    repos@,
                    places,
                    k as int,
                    query@,
                    ask,
                )[i]).0 == counts@[i] && fan_out(repos@, places, k as int, query@, ask)[i].1
                    == texts@[i]@,
        decreases picks@.len() - k,
    {
        let repo = &repos[picks[k]];
        assert(places[k as int] == picks@[k as int]);
        let ghost was = fan_out(repos@, places, k as int, query@, ask);
        let ghost now = fan_out(repos@, places, k + 1, query@, ask);
        if let Some(store) = &repo.store {
            let own = get_context_raw(
                store,
                query,
                token_budget,
                include_snippets,
                snippet_budget,
            );
            if !own.as_str().is_empty() {
                let count: usize = byte_len(own.as_str());
                let text = title(repo.name.as_str(), own, single);
                assert(now =~= was.push((count as nat, text@)));
                counts.push(count);
                texts.push(text);
            }
        }
        k += 1;
        assert forall|i: int| 0 <= i < counts@.len() implies (#[trigger] now[i]).0 == counts@[i]
            && now[i].1 == texts@[i]@ by {
            if i < was.len() {
                assert(now[i] == was[i]);
            }
        }
    }
    ranked_parts(
        &counts,
        &texts,
        "\n\n",
        Ghost(fan_out(repos@, places, places.len() as int, query@, ask)),
    )
}

/// The context for a query from one named repository, or from all, the richest first.
pub fn get_context_global(
    repos: &Vec<Repo>,
    query: &str,
    token_budget: usize,
    repo: Option<&str>,
    include_snippets: bool,
    snippet_budget: Option<usize>,
) -> (r: String)
    ensures
        r@ == crate::sanitize::envelope(
            context_global(
                repos@,
                query@,
                asked(token_budget, include_snippets, snippet_budget),
                opt_view(repo),
            ),
        ),
{
    if !is_valid_arg(query) {
        let none = String::new();
        assert(none@ =~= Seq::<char>::empty());
        return wrap_envelope(none.as_str());
    }
    if token_budget > MAX_CONTEXT_BUDGET {
        return wrap_envelope("token_budget exceeds maximum allowed value");
    }
    let (term, _lang) = infer_language_from_query(query);
    let raw = if repo.is_some() {
        let ghost ask = asked(token_budget, include_snippets, snippet_budget);
        let f = |x: &Repo, s: &Store, single: bool| -> (o: String)
            ensures
                o@ == context_part(
                    *x,
                    *s,
                    single,
                    term@,
                    asked(token_budget, include_snippets, snippet_budget),
                ),
            {
                let own = get_context_raw(
                    s,
                    term.as_str(),
                    token_budget,
                    include_snippets,
                    snippet_budget,
                );
                title(x.name.as_str(), own, single)
            };
        collect_global(repos, repo, f, Ghost(context_parts(term@, ask)))
    } else {
        fan_out_of(repos, term.as_str(), token_budget, include_snippets, snippet_budget)
    };
    wrap_envelope(raw.as_str())
}

// ---------------------------------------------------------------- laws

/// A query that finds nothing and a query that finds only what the caller may not see get one
/// answer.
pub proof fn law_denied_reads_like_not_found(
    store: Store,
    query: Seq<char>,
    ask: Ask,
    denied: Seq<u64>,
    run: Retrieval,
    nothing: Retrieval,
)
    requires
        run.seeds.confidence != Confidence::Abstain,
        start(store, run.seeds).len() > 0,
        run.ranked matches Some(hits) && crate::picks::allowed(store, hits@, denied).len() == 0,
        nothing.seeds == run.seeds,
        nothing.ranked matches Some(hits) && hits@.len() == 0,
    ensures
        context(store, query, ask, denied, run) == context(store, query, ask, Seq::empty(), nothing),
{
    lemma_no_candidates(store, run.ranked.unwrap()@, denied);
    lemma_no_candidates(store, nothing.ranked.unwrap()@, Seq::empty());
}

proof fn lemma_no_candidates(store: Store, hits: Seq<crate::retrieval::Ranked>, denied: Seq<u64>)
    requires
        crate::picks::allowed(store, hits, denied).len() == 0,
    ensures
        crate::picks::candidates(store, hits, denied).len() == 0,
{
    let a = crate::picks::allowed(store, hits, denied);
    let b = crate::picks::answers_or_all(a);
    assert(crate::picks::answers(a).len() == 0);
    crate::rank::lemma_order(crate::picks::pick_keys(b));
    assert(crate::picks::best_first(b).len() == 0);
}

/// No answer holds an angle bracket, whatever the index, the documentation and the notes hold.
pub proof fn law_context_is_sanitized(
    store: Store,
    query: Seq<char>,
    ask: Ask,
    denied: Seq<u64>,
    run: Retrieval,
)
    ensures
        !context(store, query, ask, denied, run).contains('<'),
        !context(store, query, ask, denied, run).contains('>'),
{
    let cap = crate::snippets::char_cap(ask.budget);
    reveal_strlit("token_budget exceeds maximum allowed value");
    crate::sanitize::law_body_cannot_close_the_envelope(abstention(store, run), cap);
    crate::sanitize::law_body_cannot_close_the_envelope(not_found(query), cap);
    if let Some(hits) = run.ranked {
        lemma_grounded_is_sanitized(
            store,
            ask,
            run,
            crate::picks::candidates(store, hits@, denied),
        );
    }
}

/// What is recorded for a query is answered without an angle bracket.
pub proof fn law_recorded_context_is_sanitized(
    store: Store,
    query: Seq<char>,
    ask: Ask,
    denied: Seq<u64>,
    embed: bool,
)
    ensures
        !recorded_context(store, query, ask, denied, embed).contains('<'),
        !recorded_context(store, query, ask, denied, embed).contains('>'),
{
    reveal_strlit("token_budget exceeds maximum allowed value");
    if let Some(run) = crate::retrieval::retrieval_of(store.retrievals@, query, embed) {
        law_context_is_sanitized(store, query, ask, denied, run);
    }
}

proof fn lemma_composed_is_sanitized(
    head: Seq<char>,
    entries: Seq<EntryView>,
    sep: Seq<char>,
    grouped: bool,
    budget: nat,
    foot: Seq<char>,
    signals: Seq<char>,
)
    ensures
        !composed(head, entries, sep, grouped, budget, foot, signals).contains('<'),
        !composed(head, entries, sep, grouped, budget, foot, signals).contains('>'),
{
    crate::sanitize::law_clean_has_no_angle_bracket(
        head + crate::sanitize::body(
            crate::sections::assembled(entries, sep, grouped),
            crate::snippets::char_cap(budget),
        ) + "\n\n"@ + foot + (if signals.len() == 0 {
            Seq::empty()
        } else {
            "\n"@ + signals
        }),
    );
}

proof fn lemma_grounded_is_sanitized(store: Store, ask: Ask, run: Retrieval, all: Seq<Pick>)
    ensures
        !grounded(store, ask, run, all).contains('<'),
        !grounded(store, ask, run, all).contains('>'),
{
    let v = crate::picks::picked(all, run.selected@);
    let seeds = start(store, run.seeds);
    let own = primary(run.seeds);
    let grouped = run.grouping && v.len() > 4;
    let docs = crate::docs::docs(store, run.docs).entries;
    let head = head_lines(store, run);
    let plain = plain_entries(store, seeds, own, grouped, v) + docs;
    let signals = answer_signals(store, run, all, v);
    lemma_composed_is_sanitized(
        head,
        plain,
        "\n"@,
        grouped,
        ask.budget,
        plain_foot(v),
        signals,
    );
    lemma_composed_is_sanitized(
        head,
        plain,
        "\n"@,
        grouped,
        ask.budget,
        rootless_foot(v),
        crate::text::join(
            crate::sections::signals(
                crate::sections::health(store, run.embed is Some, run.warming(), false),
                None,
                None,
                None,
                None,
            ),
            "\n"@,
        ),
    );
    let s = sourced(store, seeds, own, grouped, source_ceiling(ask, v), v);
    lemma_composed_is_sanitized(
        head,
        s.entries + docs,
        "\n\n"@,
        grouped,
        ask.budget,
        source_foot(v, s, ask.snippet_budget is Some),
        signals,
    );
}

/// No source is read for a query without room for it: an answer with source never spends more than
/// the budget for source.
pub proof fn law_source_stays_within_its_budget(
    store: Store,
    seeds: Seq<Weighted>,
    own: Seq<u64>,
    grouped: bool,
    ceiling: nat,
    v: Seq<Pick>,
)
    ensures
        sourced(store, seeds, own, grouped, ceiling, v).tokens <= ceiling,
        sourced(store, seeds, own, grouped, ceiling, v).entries.len() == v.len(),
        sourced(store, seeds, own, grouped, ceiling, v).count <= v.len(),
    decreases v.len(),
{
    if v.len() > 0 {
        law_source_stays_within_its_budget(store, seeds, own, grouped, ceiling, v.drop_last());
    }
}

} // verus!
