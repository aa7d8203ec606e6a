//! The documentation that an answer cites.

use vstd::prelude::*;

use crate::noise::upper_case_of;
use crate::sections::{Entry, EntryView, MatchSource};
use crate::seeds::{first, has_id, heaviest, Weighted};
use crate::split::split_on;
use crate::store::{Node, Store};
use crate::text::{cat2, cat3, chars_of, dec_u32, join_strings, same, string_of, strip_prefix};
use crate::width::{byte_len, fit_of};

verus! {

/// The most bytes of an entry, before its mark.
pub const DOC_ENTRY_MAX_BYTES: usize = 512;

// ---------------------------------------------------------------- titles

/// A word with its first letter in uppercase.
pub open spec fn titled(word: Seq<char>) -> Seq<char> {
    crate::noise::upper_case(word[0]) + word.drop_first()
}

/// The words with their first letters in uppercase; empty ones are left out.
pub open spec fn titled_words(words: Seq<Seq<char>>) -> Seq<Seq<char>>
    decreases words.len(),
{
    if words.len() == 0 {
        Seq::empty()
    } else if words.last().len() == 0 {
        titled_words(words.drop_last())
    } else {
        titled_words(words.drop_last()).push(titled(words.last()))
    }
}

/// A slug as a title.
pub open spec fn title(slug: Seq<char>) -> Seq<char> {
    crate::text::join(titled_words(crate::split::split(slug, '-', '-')), " "@)
}

/// The slugs of an anchor as titles, from the outermost heading to the innermost.
pub open spec fn trail(anchor: Seq<char>) -> Seq<char> {
    let slugs = crate::split::split(anchor, '/', '/');
    crate::text::join(Seq::new(slugs.len(), |i: int| title(slugs[i])), " \u{203a} "@)
}

/// An anchor without its mark.
pub open spec fn unmarked(sig: Seq<char>) -> Seq<char> {
    match crate::text::after_prefix(sig, "doc:"@) {
        Some(a) => a,
        None => sig,
    }
}

/// The headings that an anchor stands for.
pub open spec fn humanized(sig: Seq<char>) -> Seq<char> {
    if unmarked(sig) == "_preamble"@ {
        "(preamble)"@
    } else {
        trail(unmarked(sig))
    }
}

fn title_of(slug: &str) -> (r: String)
    ensures
        r@ == title(slug@),
{
    let words = split_on(slug, '-', '-');
    let ghost wv = crate::text::views(words@);
    let mut out: Vec<String> = Vec::new();
    let mut i: usize = 0;
    assert(crate::text::views(out@) =~= titled_words(wv.take(0)));
    while i < words.len()
        invariant
            i <= words@.len(),
            wv == crate::text::views(words@),
            crate::text::views(out@) == titled_words(wv.take(i as int)),
        decreases words@.len() - i,
    {
        assert(wv.take(i + 1).drop_last() =~= wv.take(i as int));
        assert(wv.take(i + 1).last() == words@[i as int]@);
        let c = chars_of(words[i].as_str());
        if c.len() > 0 {
            let mut t = upper_case_of(c[0]);
            let rest = string_of(&c, 1, c.len());
            t.append(rest.as_str());
            assert(words@[i as int]@.subrange(1, c@.len() as int) =~= words@[i as int]@.drop_first());
            proof {
                crate::text::lemma_views_push(out@, t);
            }
            out.push(t);
        }
        i += 1;
    }
    assert(wv.take(i as int) =~= wv);
    join_strings(&out, " ")
}

/// The headings that an anchor stands for, in words.
pub fn humanize_doc_anchor(sig: &str) -> (r: String)
    ensures
        r@ == humanized(sig@),
{
    let anchor: &str = match strip_prefix(sig, "doc:") {
        Some(a) => a,
        None => sig,
    };
    if same(anchor, "_preamble") {
        return "(preamble)".to_owned();
    }
    let slugs = split_on(anchor, '/', '/');
    let ghost sv = crate::text::views(slugs@);
    let mut out: Vec<String> = Vec::new();
    let mut i: usize = 0;
    while i < slugs.len()
        invariant
            i <= slugs@.len(),
            sv == crate::text::views(slugs@),
            out@.len() == i,
            forall|j: int| 0 <= j < i ==> #[trigger] out@[j]@ == title(sv[j]),
        decreases slugs@.len() - i,
    {
        assert(sv[i as int] == slugs@[i as int]@);
        out.push(title_of(slugs[i].as_str()));
        i += 1;
    }
    assert(crate::text::views(out@) =~= Seq::new(sv.len(), |i: int| title(sv[i])));
    join_strings(&out, " \u{203a} ")
}

// ---------------------------------------------------------------- entries

/// A line cut where it is too long, with a mark that says so.
pub open spec fn capped(line: Seq<char>) -> Seq<char> {
    if crate::width::blen(line) <= DOC_ENTRY_MAX_BYTES {
        line
    } else {
        crate::width::fit(line, DOC_ENTRY_MAX_BYTES as nat) + "\u{2026}"@
    }
}

/// Cuts a line that is too long, between two characters.
pub fn cap_doc_entry(line: &str) -> (r: String)
    ensures
        r@ == capped(line@),
{
    if byte_len(line) <= DOC_ENTRY_MAX_BYTES {
        line.to_owned()
    } else {
        let cut = fit_of(line, DOC_ENTRY_MAX_BYTES);
        cat2(cut.as_str(), "\u{2026}")
    }
}

/// The lines of a section.
pub open spec fn span(line: Option<u32>, end_line: Option<u32>) -> Seq<char> {
    match line {
        Some(s) => match end_line {
            Some(e) => if s != e {
                ":"@ + crate::text::dec(s as nat) + "-"@ + crate::text::dec(e as nat)
            } else {
                ":"@ + crate::text::dec(s as nat)
            },
            None => ":"@ + crate::text::dec(s as nat),
        },
        None => Seq::empty(),
    }
}

/// The line of a section of a document.
pub open spec fn doc_line(n: Node) -> Seq<char> {
    capped(n.path@ + " \u{a7} "@ + humanized(n.signature@) + span(n.line, n.end_line))
}

fn span_of(line: Option<u32>, end_line: Option<u32>) -> (r: String)
    ensures
        r@ == span(line, end_line),
{
    match line {
        Some(s) => {
            let a = dec_u32(s);
            let mut r = cat2(":", a.as_str());
            if let Some(e) = end_line {
                if s != e {
                    let b = dec_u32(e);
                    r.append("-");
                    r.append(b.as_str());
                }
            }
            r
        },
        None => {
            let r = String::new();
            assert(r@ =~= Seq::<char>::empty());
            r
        },
    }
}

fn doc_line_of(n: &Node) -> (r: String)
    ensures
        r@ == doc_line(*n),
{
    let t = humanize_doc_anchor(n.signature.as_str());
    let s = span_of(n.line, n.end_line);
    let mut line = cat3(n.path.as_str(), " \u{a7} ", t.as_str());
    line.append(s.as_str());
    cap_doc_entry(line.as_str())
}

// ---------------------------------------------------------------- choice

/// A section of a document that a semantic search found.
#[derive(Debug, Clone, Copy, PartialEq, Eq, Structural)]
pub struct DocCandidate {
    pub id: u64,
    /// The similarity to the query, in billionths.
    pub weight: usize,
    /// The similarity is above the floor.
    pub clears_floor: bool,
    /// The text of the section is known.
    pub has_text: bool,
}

/// What the reranker says of a section.
#[derive(Debug, Clone, Copy, PartialEq, Eq, Structural)]
pub struct DocScore {
    /// The score, in billionths.
    pub weight: usize,
    /// The score is above the floor.
    pub clears_floor: bool,
}

/// What the search in the documentation gave for a query.
#[derive(Debug)]
pub struct DocLane {
    /// The sections, closest first; none where the search is off.
    pub candidates: Vec<DocCandidate>,
    /// The closest is so close that the reranker is not asked.
    pub confident: bool,
    /// What the reranker says of the sections whose text is known, in order; `None` where it gave
    /// nothing.
    pub scores: Option<Vec<DocScore>>,
    /// The most sections that are cited.
    pub max_results: usize,
    /// The share of the token budget.
    pub budget_cap: usize,
}

/// The sections above the floor.
pub open spec fn close(candidates: Seq<DocCandidate>) -> Seq<Weighted>
    decreases candidates.len(),
{
    if candidates.len() == 0 {
        Seq::empty()
    } else {
        let c = close(candidates.drop_last());
        let x = candidates.last();
        if x.clears_floor {
            c.push(Weighted { id: x.id, weight: x.weight })
        } else {
            c
        }
    }
}

/// The sections whose text is known.
pub open spec fn texted(candidates: Seq<DocCandidate>) -> Seq<u64>
    decreases candidates.len(),
{
    if candidates.len() == 0 {
        Seq::empty()
    } else if candidates.last().has_text {
        texted(candidates.drop_last()).push(candidates.last().id)
    } else {
        texted(candidates.drop_last())
    }
}

/// The sections whose score is above the floor.
pub open spec fn scored(ids: Seq<u64>, scores: Seq<DocScore>) -> Seq<Weighted>
    decreases scores.len(),
{
    if scores.len() == 0 {
        Seq::empty()
    } else {
        let c = scored(ids, scores.drop_last());
        let x = scores.last();
        if x.clears_floor {
            c.push(Weighted { id: ids[scores.len() - 1], weight: x.weight })
        } else {
            c
        }
    }
}

/// The sections to cite, best first: by the reranker where it has a say, else by similarity.
pub open spec fn cited(lane: DocLane) -> Seq<Weighted> {
    let ids = texted(lane.candidates@);
    let by_similarity = first(heaviest(close(lane.candidates@)), lane.max_results as nat);
    if lane.confident || ids.len() == 0 {
        by_similarity
    } else {
        match lane.scores {
            Some(scores) => if scores@.len() == ids.len() {
                first(heaviest(scored(ids, scores@)), lane.max_results as nat)
            } else {
                by_similarity
            },
            None => by_similarity,
        }
    }
}

fn by_similarity_of(lane: &DocLane) -> (r: Vec<Weighted>)
    ensures
        r@ == first(heaviest(close(lane.candidates@)), lane.max_results as nat),
{
    let mut c: Vec<Weighted> = Vec::new();
    let mut i: usize = 0;
    while i < lane.candidates.len()
        invariant
            i <= lane.candidates@.len(),
            c@ == close(lane.candidates@.take(i as int)),
        decreases lane.candidates@.len() - i,
    {
        assert(lane.candidates@.take(i + 1).drop_last() =~= lane.candidates@.take(i as int));
        let x = lane.candidates[i];
        if x.clears_floor {
            c.push(Weighted { id: x.id, weight: x.weight });
        }
        i += 1;
    }
    assert(lane.candidates@.take(i as int) =~= lane.candidates@);
    let mut r = crate::seeds::heaviest_of(&c);
    if r.len() > lane.max_results {
        r.truncate(lane.max_results);
    }
    r
}

fn texted_of(candidates: &Vec<DocCandidate>) -> (r: Vec<u64>)
    ensures
        r@ == texted(candidates@),
{
    let mut r: Vec<u64> = Vec::new();
    let mut i: usize = 0;
    while i < candidates.len()
        invariant
            i <= candidates@.len(),
            r@ == texted(candidates@.take(i as int)),
        decreases candidates@.len() - i,
    {
        assert(candidates@.take(i + 1).drop_last() =~= candidates@.take(i as int));
        if candidates[i].has_text {
            r.push(candidates[i].id);
        }
        i += 1;
    }
    assert(candidates@.take(i as int) =~= candidates@);
    r
}

/// Chooses the sections to cite.
pub fn rerank_doc_candidates(lane: &DocLane) -> (r: Vec<Weighted>)
    ensures
        r@ == cited(*lane),
{
    let ids = texted_of(&lane.candidates);
    if lane.confident || ids.len() == 0 {
        return by_similarity_of(lane);
    }
    match &lane.scores {
        Some(scores) => {
            if scores.len() != ids.len() {
                return by_similarity_of(lane);
            }
            let mut c: Vec<Weighted> = Vec::new();
            let mut i: usize = 0;
            while i < scores.len()
                invariant
                    i <= scores@.len(),
                    scores@.len() == ids@.len(),
                    c@ == scored(ids@, scores@.take(i as int)),
                decreases scores@.len() - i,
            {
                assert(scores@.take(i + 1).drop_last() =~= scores@.take(i as int));
                if scores[i].clears_floor {
                    c.push(Weighted { id: ids[i], weight: scores[i].weight });
                }
                i += 1;
            }
            assert(scores@.take(i as int) =~= scores@);
            let mut r = crate::seeds::heaviest_of(&c);
            if r.len() > lane.max_results {
                r.truncate(lane.max_results);
            }
            r
        },
        None => by_similarity_of(lane),
    }
}

// ---------------------------------------------------------------- the section

/// The entries of the cited sections, each section once.
pub open spec fn doc_entries(store: Store, hits: Seq<Weighted>) -> Seq<EntryView>
    decreases hits.len(),
{
    if hits.len() == 0 {
        Seq::empty()
    } else {
        let e = doc_entries(store, hits.drop_last());
        let h = hits.last();
        match store.node(h.id) {
            Some(n) => if has_id(hits.drop_last(), h.id) {
                e
            } else {
                e.push(
                    EntryView {
                        source: MatchSource::Docs,
                        weight: h.weight as nat,
                        line: doc_line(n),
                    },
                )
            },
            None => e,
        }
    }
}

/// What an entry costs, in tokens.
pub open spec fn doc_cost(e: EntryView) -> nat {
    crate::width::blen(e.line) / 4 + 1
}

/// Entries with what they cost together.
pub struct Docs {
    pub entries: Seq<EntryView>,
    pub tokens: nat,
}

/// The entries up to the first that exceeds the budget.
pub open spec fn carved(d: Docs, entries: Seq<EntryView>, budget: nat) -> Docs
    decreases entries.len(),
{
    if entries.len() == 0 || d.tokens + doc_cost(entries[0]) > budget {
        d
    } else {
        carved(
            Docs { entries: d.entries.push(entries[0]), tokens: d.tokens + doc_cost(entries[0]) },
            entries.drop_first(),
            budget,
        )
    }
}

/// The documentation section of an answer; none where the lane gave nothing.
pub open spec fn docs(store: Store, lane: DocLane) -> Docs {
    let nothing = Docs { entries: Seq::empty(), tokens: 0 };
    if lane.candidates@.len() == 0 {
        nothing
    } else {
        carved(nothing, doc_entries(store, cited(lane)), lane.budget_cap as nat)
    }
}

fn doc_entries_of(store: &Store, hits: &Vec<Weighted>) -> (r: Vec<Entry>)
    ensures
        crate::sections::entry_views(r@) == doc_entries(*store, hits@),
{
    let mut r: Vec<Entry> = Vec::new();
    let mut before: Vec<Weighted> = Vec::new();
    let mut i: usize = 0;
    assert(crate::sections::entry_views(r@) =~= doc_entries(*store, hits@.take(0)));
    assert(before@ =~= hits@.take(0));
    while i < hits.len()
        invariant
            i <= hits@.len(),
            before@ == hits@.take(i as int),
            crate::sections::entry_views(r@) == doc_entries(*store, hits@.take(i as int)),
        decreases hits@.len() - i,
    {
        assert(hits@.take(i + 1).drop_last() =~= hits@.take(i as int));
        if let Some(n) = store.get_node(hits[i].id) {
            if !crate::seeds::is_weighted(&before, hits[i].id) {
                let e = Entry {
                    source: MatchSource::Docs,
                    weight: hits[i].weight,
                    line: doc_line_of(n),
                };
                let ghost was = r@;
                let ghost x = e@;
                r.push(e);
                assert(crate::sections::entry_views(r@) =~= crate::sections::entry_views(was).push(x));
            }
        }
        before.push(hits[i]);
        assert(before@ =~= hits@.take(i + 1));
        i += 1;
    }
    assert(hits@.take(i as int) =~= hits@);
    r
}

/// The documentation section of an answer, and what it costs in tokens.
pub fn build_docs_section(store: &Store, lane: &DocLane) -> (r: (Vec<Entry>, usize))
    ensures
        crate::sections::entry_views(r.0@) == docs(*store, *lane).entries,
        r.1 == docs(*store, *lane).tokens,
        r.1 <= lane.budget_cap,
{
    let mut kept: Vec<Entry> = Vec::new();
    let mut tokens: usize = 0;
    assert(crate::sections::entry_views(kept@) =~= Seq::<EntryView>::empty());
    if lane.candidates.len() == 0 {
        return (kept, tokens);
    }
    let hits = rerank_doc_candidates(lane);
    let entries = doc_entries_of(store, &hits);
    let ghost all = crate::sections::entry_views(entries@);
    let ghost d = docs(*store, *lane);
    let mut i: usize = 0;
    assert(all.skip(0) =~= all);
    loop
        invariant_except_break
            i <= entries@.len(),
            all == crate::sections::entry_views(entries@),
            tokens <= lane.budget_cap,
            d == carved(
                Docs { entries: crate::sections::entry_views(kept@), tokens: tokens as nat },
                all.skip(i as int),
                lane.budget_cap as nat,
            ),
        ensures
            crate::sections::entry_views(kept@) == d.entries,
            tokens == d.tokens,
            tokens <= lane.budget_cap,
        decreases entries@.len() - i,
    {
        if i >= entries.len() {
            break;
        }
        let e = &entries[i];
        let cost: usize = byte_len(e.line.as_str()) / 4 + 1;
        assert(all.skip(i as int)[0] == e@);
        assert(all.skip(i as int).drop_first() =~= all.skip(i + 1));
        if cost > lane.budget_cap - tokens {
            break;
        }
        tokens += cost;
        let c = Entry { source: e.source, weight: e.weight, line: e.line.clone() };
        let ghost was = kept@;
        let ghost x = c@;
        kept.push(c);
        assert(crate::sections::entry_views(kept@) =~= crate::sections::entry_views(was).push(x));
        i += 1;
    }
    (kept, tokens)
}

// ---------------------------------------------------------------- laws

/// No entry is longer than the cap and its mark, however long the path and the headings are.
pub proof fn law_doc_entries_are_bounded(line: Seq<char>)
    ensures
        crate::width::blen(capped(line)) <= DOC_ENTRY_MAX_BYTES + 4,
{
    let f = crate::width::fit(line, DOC_ENTRY_MAX_BYTES as nat);
    crate::width::lemma_fit(line, DOC_ENTRY_MAX_BYTES as nat);
    reveal_strlit("\u{2026}");
    assert("\u{2026}"@ =~= seq!['\u{2026}']);
    crate::width::lemma_blen_one('\u{2026}');
    crate::width::lemma_blen_concat(f, "\u{2026}"@);
}

proof fn lemma_carved(d: Docs, entries: Seq<EntryView>, budget: nat)
    requires
        d.tokens <= budget,
    ensures
        carved(d, entries, budget).tokens <= budget,
    decreases entries.len(),
{
    if entries.len() > 0 && d.tokens + doc_cost(entries[0]) <= budget {
        lemma_carved(
            Docs { entries: d.entries.push(entries[0]), tokens: d.tokens + doc_cost(entries[0]) },
            entries.drop_first(),
            budget,
        );
    }
}

/// The documentation never costs more than its share of the budget.
pub proof fn law_docs_stay_within_their_share(store: Store, lane: DocLane)
    ensures
        docs(store, lane).tokens <= lane.budget_cap,
{
    lemma_carved(
        Docs { entries: Seq::empty(), tokens: 0 },
        doc_entries(store, cited(lane)),
        lane.budget_cap as nat,
    );
}

} // verus!
