//! How context is laid out: lines, sections and notes.

use vstd::prelude::*;

use crate::notes::phase_b_pending;
use crate::rank::{rank, Key, KeyView};
use crate::store::{opt_view, Node, Store};
use crate::text::{cat3, join_strings, same};

verus! {

/// Why an entry is shown.
#[derive(Debug, Clone, Copy, PartialEq, Eq, Structural)]
pub enum MatchSource {
    /// The query names it.
    Exact,
    /// The query is close to it.
    Semantic,
    /// It is documentation.
    Docs,
    /// It is a test.
    Tests,
    /// It is next to a match in the graph.
    Relevant,
}

impl MatchSource {
    /// The place of its section.
    pub open spec fn rank(self) -> nat {
        match self {
            MatchSource::Exact => 0,
            MatchSource::Semantic => 1,
            MatchSource::Docs => 2,
            MatchSource::Tests => 3,
            MatchSource::Relevant => 4,
        }
    }

    /// The place of its section, the most trusted first.
    pub fn trust_rank(self) -> (r: usize)
        ensures
            r == self.rank(),
    {
        match self {
            MatchSource::Exact => 0,
            MatchSource::Semantic => 1,
            MatchSource::Docs => 2,
            MatchSource::Tests => 3,
            MatchSource::Relevant => 4,
        }
    }
}

/// The heading of a section.
pub open spec fn heading(ms: MatchSource) -> Seq<char> {
    match ms {
        MatchSource::Exact =>
            "## exact matches, literal symbol / text (not relevance-ranked)"@,
        MatchSource::Semantic => "## related, ranked by relevance"@,
        MatchSource::Docs =>
            "## docs (documentation prose: claims about the code, verify behaviour against the code itself)"@,
        MatchSource::Tests => "## tests, test entry points & fixtures"@,
        MatchSource::Relevant => "## relevant, graph-adjacent context"@,
    }
}

/// The heading of a section.
pub fn match_source_header(ms: MatchSource) -> (r: &'static str)
    ensures
        r@ == heading(ms),
{
    match ms {
        MatchSource::Exact => "## exact matches, literal symbol / text (not relevance-ranked)",
        MatchSource::Semantic => "## related, ranked by relevance",
        MatchSource::Docs =>
            "## docs (documentation prose: claims about the code, verify behaviour against the code itself)",
        MatchSource::Tests => "## tests, test entry points & fixtures",
        MatchSource::Relevant => "## relevant, graph-adjacent context",
    }
}

/// A line leaves out how its node was found in a section of seeds, whose heading says so.
pub open spec fn omits_via(grouped: bool, ms: MatchSource) -> bool {
    grouped && (ms == MatchSource::Exact || ms == MatchSource::Semantic)
}

/// Whether a line leaves out how its node was found.
pub fn omit_seed_via(grouped: bool, ms: MatchSource) -> (r: bool)
    ensures
        r == omits_via(grouped, ms),
{
    grouped && (ms == MatchSource::Exact || ms == MatchSource::Semantic)
}

// ---------------------------------------------------------------- one node

/// How a node was found.
pub open spec fn badge(
    role: Seq<char>,
    via_source: Option<Seq<char>>,
    source: Option<Seq<char>>,
) -> Seq<char> {
    if via_source is Some && (role == "caller"@ || role == "dependency"@) {
        " [via: "@ + role + " of "@ + via_source.unwrap() + "]"@
    } else {
        match source {
            Some(s) => " [via: "@ + role + " \u{b7} "@ + s + "]"@,
            None => " [via: "@ + role + "]"@,
        }
    }
}

/// A score in brackets, where there is one.
pub open spec fn score_mark(score: Option<Seq<char>>) -> Seq<char> {
    match score {
        Some(s) => " [score: "@ + s + "]"@,
        None => Seq::empty(),
    }
}

/// The package in brackets, where there is one.
pub open spec fn package_mark(package: Seq<char>) -> Seq<char> {
    if package.len() == 0 {
        Seq::empty()
    } else {
        " [package: "@ + package + "]"@
    }
}

/// The name, kind and place of a node.
pub open spec fn node_place(n: Node) -> Seq<char> {
    n.signature@ + " ("@ + n.kind@ + "), "@ + n.path@ + crate::callers::line_suffix(n.line)
        + package_mark(n.package@)
}

/// The line of a node.
pub open spec fn node_line(
    n: Node,
    role: Seq<char>,
    score: Option<Seq<char>>,
    via_source: Option<Seq<char>>,
    source: Option<Seq<char>>,
    omit_via: bool,
) -> Seq<char> {
    node_place(n) + (if omit_via {
        Seq::empty()
    } else {
        badge(role, via_source, source)
    }) + score_mark(score)
}

pub(crate) fn node_place_of(n: &Node) -> (s: String)
    ensures
        s@ == node_place(*n),
{
    let mut s = cat3(n.signature.as_str(), " (", n.kind.as_str());
    s.append("), ");
    s.append(n.path.as_str());
    let loc = crate::callers::line_suffix_of(n.line);
    s.append(loc.as_str());
    let mut mark = String::new();
    assert(mark@ =~= Seq::<char>::empty());
    if !n.package.as_str().is_empty() {
        mark = cat3(" [package: ", n.package.as_str(), "]");
    }
    s.append(mark.as_str());
    s
}

fn badge_of(role: &str, via_source: Option<&str>, source: Option<&str>) -> (s: String)
    ensures
        s@ == badge(role@, opt_view(via_source), opt_view(source)),
{
    if let Some(src) = via_source {
        if same(role, "caller") || same(role, "dependency") {
            let mut s = cat3(" [via: ", role, " of ");
            s.append(src);
            s.append("]");
            return s;
        }
    }
    match source {
        Some(x) => {
            let mut s = cat3(" [via: ", role, " \u{b7} ");
            s.append(x);
            s.append("]");
            s
        },
        None => cat3(" [via: ", role, "]"),
    }
}

/// The line of a node. `score` is its score as it is shown.
pub fn format_node_line(
    n: &Node,
    role: &str,
    score: Option<&str>,
    via_source: Option<&str>,
    source: Option<&str>,
    omit_via: bool,
) -> (s: String)
    ensures
        s@ == node_line(
            *n,
            role@,
            opt_view(score),
            opt_view(via_source),
            opt_view(source),
            omit_via,
        ),
{
    let mut s = node_place_of(n);
    let mut via = String::new();
    assert(via@ =~= Seq::<char>::empty());
    if !omit_via {
        via = badge_of(role, via_source, source);
    }
    s.append(via.as_str());
    let mut mark = String::new();
    assert(mark@ =~= Seq::<char>::empty());
    if let Some(x) = score {
        mark = cat3(" [score: ", x, "]");
    }
    s.append(mark.as_str());
    s
}

// ---------------------------------------------------------------- all nodes

/// An entry of an answer.
#[derive(Debug)]
pub struct Entry {
    pub source: MatchSource,
    /// What entries of one section are ordered by.
    pub weight: usize,
    pub line: String,
}

/// An entry of an answer.
pub struct EntryView {
    pub source: MatchSource,
    pub weight: nat,
    pub line: Seq<char>,
}

impl View for Entry {
    type V = EntryView;

    open spec fn view(&self) -> EntryView {
        EntryView { source: self.source, weight: self.weight as nat, line: self.line@ }
    }
}

pub open spec fn entry_views(v: Seq<Entry>) -> Seq<EntryView> {
    Seq::new(v.len(), |i: int| v[i]@)
}

pub open spec fn entry_lines(v: Seq<EntryView>) -> Seq<Seq<char>> {
    Seq::new(v.len(), |i: int| v[i].line)
}

/// What entries are ordered by: the place of their section, then their weight.
pub open spec fn entry_keys(v: Seq<EntryView>) -> Seq<KeyView> {
    Seq::new(
        v.len(),
        |i: int|
            (KeyView {
                first: (4 - v[i].source.rank()) as nat,
                second: v[i].weight,
                name: Seq::empty(),
            }),
    )
}

/// The entries by section, and by weight within a section.
pub open spec fn by_section(v: Seq<EntryView>) -> Seq<EntryView> {
    crate::rank::at(v, crate::rank::order_of(entry_keys(v)))
}

/// Lines under headings.
pub struct Layout {
    pub lines: Seq<Seq<char>>,
    /// The section of the last line.
    pub section: Option<MatchSource>,
    /// How many tests are shown.
    pub tests: nat,
}

/// The entries under their headings; no more than a few tests.
pub open spec fn laid_out(v: Seq<EntryView>) -> Layout
    decreases v.len(),
{
    if v.len() == 0 {
        Layout { lines: Seq::empty(), section: None, tests: 0 }
    } else {
        let l = laid_out(v.drop_last());
        let e = v.last();
        if e.source == MatchSource::Tests && l.tests >= 3 {
            l
        } else {
            Layout {
                lines: (if l.section == Some(e.source) {
                    l.lines
                } else {
                    l.lines.push(heading(e.source))
                }).push(e.line),
                section: Some(e.source),
                tests: if e.source == MatchSource::Tests {
                    l.tests + 1
                } else {
                    l.tests
                },
            }
        }
    }
}

/// The entries as one text.
pub open spec fn assembled(v: Seq<EntryView>, sep: Seq<char>, grouped: bool) -> Seq<char> {
    if grouped {
        crate::text::join(laid_out(by_section(v)).lines, sep)
    } else {
        crate::text::join(entry_lines(v), sep)
    }
}

fn order_entries(v: &Vec<Entry>) -> (order: Vec<usize>)
    ensures
        crate::rank::ints(order@) == crate::rank::order_of(entry_keys(entry_views(v@))),
        order@.len() == v@.len(),
        forall|i: int| 0 <= i < order@.len() ==> #[trigger] order@[i] < v@.len(),
{
    let ghost want = entry_keys(entry_views(v@));
    let mut keys: Vec<Key> = Vec::new();
    let mut i: usize = 0;
    while i < v.len()
        invariant
            i <= v@.len(),
            want == entry_keys(entry_views(v@)),
            keys@.len() == i,
            forall|j: int| 0 <= j < i ==> #[trigger] keys@[j]@ == want[j],
        decreases v@.len() - i,
    {
        let t: usize = v[i].source.trust_rank();
        let k = Key { first: 4 - t, second: v[i].weight, name: String::new() };
        assert(k.name@ =~= Seq::<char>::empty());
        assert(entry_views(v@)[i as int] == v@[i as int]@);
        keys.push(k);
        i += 1;
    }
    assert(crate::rank::key_views(keys@) =~= want);
    rank(&keys)
}

/// Puts the entries together: one after the other, or in sections with headings.
pub fn assemble_context_body(entries: &Vec<Entry>, sep: &str, grouped: bool) -> (r: String)
    ensures
        r@ == assembled(entry_views(entries@), sep@, grouped),
{
    let ghost ev = entry_views(entries@);
    let mut out: Vec<String> = Vec::new();
    assert(crate::text::views(out@) =~= Seq::<Seq<char>>::empty());
    if !grouped {
        let mut i: usize = 0;
        while i < entries.len()
            invariant
                i <= entries@.len(),
                ev == entry_views(entries@),
                out@.len() == i,
                forall|j: int| 0 <= j < i ==> #[trigger] out@[j]@ == ev[j].line,
            decreases entries@.len() - i,
        {
            assert(ev[i as int] == entries@[i as int]@);
            out.push(entries[i].line.clone());
            i += 1;
        }
        assert(crate::text::views(out@) =~= entry_lines(ev));
        return join_strings(&out, sep);
    }
    let order = order_entries(entries);
    let ghost all = by_section(ev);
    let mut section: Option<MatchSource> = None;
    let mut tests: usize = 0;
    let mut k: usize = 0;
    while k < order.len()
        invariant
            k <= order@.len(),
            order@.len() == entries@.len(),
            ev == entry_views(entries@),
            all == by_section(ev),
            all.len() == order@.len(),
            crate::rank::ints(order@) == crate::rank::order_of(entry_keys(ev)),
            forall|i: int| 0 <= i < order@.len() ==> #[trigger] order@[i] < entries@.len(),
            tests <= 3,
            crate::text::views(out@) == laid_out(all.take(k as int)).lines,
            section == laid_out(all.take(k as int)).section,
            tests == laid_out(all.take(k as int)).tests,
        decreases order@.len() - k,
    {
        let e = &entries[order[k]];
        proof {
            assert(all.take(k + 1).drop_last() =~= all.take(k as int));
            assert(crate::rank::ints(order@)[k as int] == order@[k as int]);
            assert(all[k as int] == ev[order@[k as int] as int]);
            assert(all.take(k + 1).last() == e@);
        }
        if !(e.source == MatchSource::Tests && tests >= 3) {
            if e.source == MatchSource::Tests {
                tests += 1;
            }
            let fresh = match section {
                Some(s) => s != e.source,
                None => true,
            };
            if fresh {
                let h = match_source_header(e.source).to_owned();
                proof {
                    crate::text::lemma_views_push(out@, h);
                }
                out.push(h);
                section = Some(e.source);
            }
            proof {
                crate::text::lemma_views_push(out@, e.line);
            }
            out.push(e.line.clone());
        }
        k += 1;
    }
    assert(all.take(k as int) =~= all);
    join_strings(&out, sep)
}

// ---------------------------------------------------------------- notes

/// What is known of the index and of the semantic search.
#[derive(Debug, Clone, Copy, PartialEq, Eq, Structural)]
pub struct Health {
    pub phase_b_pending: bool,
    /// A semantic search is configured.
    pub has_embed: bool,
    /// It is configured and not ready yet.
    pub embed_warming: bool,
    /// An index of embeddings exists.
    pub embed_initialized: bool,
    /// It took too long.
    pub knn_degraded: bool,
}

/// A list with an entry added where there is one.
pub open spec fn with(v: Seq<Seq<char>>, x: Option<Seq<char>>) -> Seq<Seq<char>> {
    match x {
        Some(s) => v.push(s),
        None => v,
    }
}

/// What is said of the semantic search, where it did not fully serve.
pub open spec fn embed_note(h: Health) -> Option<Seq<char>> {
    if h.embed_warming {
        Some(
            "[note: semantic embeddings still warming up (sidecar starting), this result is lexical-only; retry in a few seconds for full semantic ranking]"@,
        )
    } else if h.has_embed && h.knn_degraded {
        Some(
            "[note: semantic search degraded, KNN timed out or returned empty; results are lexical only]"@,
        )
    } else if !h.has_embed && h.embed_initialized {
        Some(
            "[note: embedding in progress. Run `travsr embed status` to check; results improve as index builds]"@,
        )
    } else if !h.has_embed {
        Some(
            "[note: semantic search disabled. Run `travsr embed init` for better results]"@,
        )
    } else {
        None
    }
}

/// What is said of missing call edges.
pub open spec fn calls_note(h: Health) -> Option<Seq<char>> {
    if h.phase_b_pending {
        Some(
            "[note: call traversal limited. Run `travsr lang install <lang>` to enable call-graph edges]"@,
        )
    } else {
        None
    }
}

/// The messages below an answer, what is most useful first.
pub open spec fn signals(
    h: Health,
    overflow: Option<Seq<char>>,
    seed_cap: Option<Seq<char>>,
    weak: Option<Seq<char>>,
    concepts: Option<Seq<char>>,
) -> Seq<Seq<char>> {
    with(
        with(
            with(with(with(with(Seq::empty(), overflow), seed_cap), weak), concepts),
            embed_note(h),
        ),
        calls_note(h),
    )
}

fn add_note(v: &mut Vec<String>, x: Option<&str>)
    ensures
        crate::text::views(final(v)@) == with(crate::text::views(old(v)@), opt_view(x)),
{
    if let Some(s) = x {
        let t = s.to_owned();
        proof {
            crate::text::lemma_views_push(v@, t);
        }
        v.push(t);
    }
}

fn embed_note_of(h: Health) -> (r: Option<&'static str>)
    ensures
        opt_view(r) == embed_note(h),
{
    if h.embed_warming {
        Some(
            "[note: semantic embeddings still warming up (sidecar starting), this result is lexical-only; retry in a few seconds for full semantic ranking]",
        )
    } else if h.has_embed && h.knn_degraded {
        Some(
            "[note: semantic search degraded, KNN timed out or returned empty; results are lexical only]",
        )
    } else if !h.has_embed && h.embed_initialized {
        Some(
            "[note: embedding in progress. Run `travsr embed status` to check; results improve as index builds]",
        )
    } else if !h.has_embed {
        Some("[note: semantic search disabled. Run `travsr embed init` for better results]")
    } else {
        None
    }
}

/// The messages below an answer, one per line.
pub fn build_context_signals_with_r2(
    h: Health,
    overflow_msg: Option<&str>,
    seed_cap_msg: Option<&str>,
    multi_concept_note: Option<&str>,
    weak_match_note: Option<&str>,
) -> (r: String)
    ensures
        r@ == crate::text::join(
            signals(
                h,
                opt_view(overflow_msg),
                opt_view(seed_cap_msg),
                opt_view(weak_match_note),
                opt_view(multi_concept_note),
            ),
            "\n"@,
        ),
{
    let mut parts: Vec<String> = Vec::new();
    assert(crate::text::views(parts@) =~= Seq::<Seq<char>>::empty());
    add_note(&mut parts, overflow_msg);
    add_note(&mut parts, seed_cap_msg);
    add_note(&mut parts, weak_match_note);
    add_note(&mut parts, multi_concept_note);
    add_note(&mut parts, embed_note_of(h));
    if h.phase_b_pending {
        add_note(
            &mut parts,
            Some(
                "[note: call traversal limited. Run `travsr lang install <lang>` to enable call-graph edges]",
            ),
        );
    }
    join_strings(&parts, "\n")
}

/// What is known of the index of a repository and of its semantic search.
pub open spec fn health(store: Store, has_embed: bool, embed_warming: bool, knn_degraded: bool) -> Health {
    Health {
        phase_b_pending: crate::notes::is_phase_b_pending(store),
        has_embed,
        embed_warming,
        embed_initialized: store.embed_initialized,
        knn_degraded,
    }
}

pub(crate) fn health_of(store: &Store, has_embed: bool, embed_warming: bool, knn_degraded: bool) -> (r:
    Health)
    ensures
        r == health(*store, has_embed, embed_warming, knn_degraded),
{
    Health {
        phase_b_pending: phase_b_pending(store),
        has_embed,
        embed_warming,
        embed_initialized: store.embed_initialized,
        knn_degraded,
    }
}

/// The messages below an answer from a repository.
pub fn build_context_signals(
    store: &Store,
    has_embed: bool,
    embed_warming: bool,
    knn_degraded: bool,
    overflow_msg: Option<&str>,
    seed_cap_msg: Option<&str>,
) -> (r: String)
    ensures
        r@ == crate::text::join(
            signals(
                health(*store, has_embed, embed_warming, knn_degraded),
                opt_view(overflow_msg),
                opt_view(seed_cap_msg),
                None,
                None,
            ),
            "\n"@,
        ),
{
    build_context_signals_with_r2(
        health_of(store, has_embed, embed_warming, knn_degraded),
        overflow_msg,
        seed_cap_msg,
        None,
        None,
    )
}

// ---------------------------------------------------------------- laws

/// An index that is complete and served fully adds no message of its own.
pub proof fn law_operational_index_has_no_signal(store: Store)
    requires
        !crate::notes::is_phase_b_pending(store),
    ensures
        signals(health(store, true, false, false), None, None, None, None).len() == 0,
{
}

proof fn lemma_laid_out_tests(v: Seq<EntryView>)
    ensures
        laid_out(v).tests <= 3,
    decreases v.len(),
{
    if v.len() > 0 {
        lemma_laid_out_tests(v.drop_last());
    }
}

/// Every entry that is no test is shown, and no more than three tests are.
pub proof fn law_sections_show_every_entry(v: Seq<EntryView>)
    ensures
        forall|i: int|
            0 <= i < v.len() && (#[trigger] v[i]).source != MatchSource::Tests ==> laid_out(
                v,
            ).lines.contains(v[i].line),
        laid_out(v).tests <= 3,
    decreases v.len(),
{
    lemma_laid_out_tests(v);
    if v.len() > 0 {
        let p = v.drop_last();
        let l = laid_out(p);
        let e = v.last();
        law_sections_show_every_entry(p);
        assert forall|i: int|
            0 <= i < v.len() && (#[trigger] v[i]).source != MatchSource::Tests implies laid_out(
            v,
        ).lines.contains(v[i].line) by {
            let under = if l.section == Some(e.source) {
                l.lines
            } else {
                l.lines.push(heading(e.source))
            };
            if i < p.len() {
                assert(p[i] == v[i]);
                crate::store::lemma_push_contains(l.lines, heading(e.source), v[i].line);
            }
            crate::store::lemma_push_contains(under, e.line, v[i].line);
        }
    }
}

/// An entry of a more trusted section never comes after one of a less trusted section, and within
/// a section the heavier comes first.
pub proof fn law_sections_are_ordered(v: Seq<EntryView>, i: int, j: int)
    requires
        0 <= i < j < v.len(),
    ensures
        by_section(v)[i].source.rank() <= by_section(v)[j].source.rank(),
        by_section(v)[i].source == by_section(v)[j].source ==> by_section(v)[i].weight
            >= by_section(v)[j].weight,
{
    let p = crate::rank::order_of(entry_keys(v));
    crate::rank::lemma_order(entry_keys(v));
    assert(crate::rank::ranks(entry_keys(v), p[i], p[j]));
    crate::order::lemma_before_irreflexive(Seq::<char>::empty());
}

} // verus!
