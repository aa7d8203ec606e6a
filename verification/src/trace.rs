//! What each stage of the search for seeds found, for diagnosis.

use vstd::prelude::*;

use crate::retrieval::SeedSource;
use crate::roles::seed_source_label;
use crate::sanitize::is_valid_arg;
use crate::seeds::{embed_path_seeds, KnnHit};
use crate::store::{Node, Store};
use crate::text::{cat3, dec_usize};

verus! {

/// A node with its score to four decimals.
#[derive(Debug)]
pub struct Row {
    pub id: u64,
    pub score: String,
}

/// A seed as it came out of the search.
#[derive(Debug)]
pub struct SeedRow {
    pub id: u64,
    pub source: SeedSource,
    /// The weight to four decimals.
    pub weight: String,
    /// The score of the reranker to four decimals, where it gave one.
    pub rerank: Option<String>,
}

/// What the stages of a search found.
#[derive(Debug)]
pub struct Trace {
    /// The anchors of the calibration to four decimals.
    pub lo: String,
    pub hi: String,
    /// What the semantic search found, best first.
    pub raw: Vec<Row>,
    /// What the semantic search handed on.
    pub hits: Vec<KnnHit>,
    /// The scores of what it handed on.
    pub hit_scores: Vec<Row>,
    /// The name of the confidence.
    pub confidence: String,
    pub seeds: Vec<SeedRow>,
}

/// The end of a line: the node and its place.
pub open spec fn node_tail(n: Node) -> Seq<char> {
    "\t"@ + n.signature@ + "\t"@ + n.path@ + crate::callers::line_suffix(n.line) + "\n"@
}

fn node_tail_of(n: &Node) -> (s: String)
    ensures
        s@ == node_tail(*n),
{
    let loc = crate::callers::line_suffix_of(n.line);
    let mut s = cat3("\t", n.signature.as_str(), "\t");
    s.append(n.path.as_str());
    s.append(loc.as_str());
    s.append("\n");
    s
}

/// The lines of the nodes that exist, numbered by their place.
pub open spec fn numbered(store: Store, rows: Seq<Row>, tag: Seq<char>) -> Seq<char>
    decreases rows.len(),
{
    if rows.len() == 0 {
        Seq::empty()
    } else {
        let rest = numbered(store, rows.drop_last(), tag);
        match store.node(rows.last().id) {
            Some(n) => rest + (tag + crate::text::dec(rows.len()) + "\t"@ + rows.last().score@
                + node_tail(n)),
            None => rest,
        }
    }
}

fn numbered_of(store: &Store, rows: &Vec<Row>, tag: &str) -> (r: String)
    ensures
        r@ == numbered(*store, rows@, tag@),
{
    let mut r = String::new();
    assert(r@ =~= Seq::<char>::empty());
    let count: usize = rows.len();
    let mut i: usize = 0;
    while i < count
        invariant
            i <= rows@.len(),
            count == rows@.len(),
            r@ == numbered(*store, rows@.take(i as int), tag@),
        decreases rows@.len() - i,
    {
        assert(rows@.take(i + 1).drop_last() =~= rows@.take(i as int));
        if let Some(n) = store.get_node(rows[i].id) {
            let place = dec_usize(i + 1);
            let tail = node_tail_of(n);
            let mut line = cat3(tag, place.as_str(), "\t");
            line.append(rows[i].score.as_str());
            line.append(tail.as_str());
            r.append(line.as_str());
        }
        i += 1;
    }
    assert(rows@.take(i as int) =~= rows@);
    r
}

/// What the semantic search finds for a query, as a table.
pub open spec fn probe(store: Store, query: Seq<char>, rows: Option<Seq<Row>>) -> Seq<char> {
    if !crate::sanitize::arg_ok(query) {
        Seq::empty()
    } else {
        match rows {
            None => "[embed KNN unavailable, embeddings not wired]"@,
            Some(v) => if v.len() == 0 {
                "[no KNN results]"@
            } else {
                numbered(store, v, Seq::empty())
            },
        }
    }
}

pub open spec fn rows_view(rows: Option<&Vec<Row>>) -> Option<Seq<Row>> {
    match rows {
        Some(v) => Some(v@),
        None => None,
    }
}

/// What the semantic search found for a query; `None` where there is no such search.
pub fn embed_knn_probe(store: &Store, query: &str, rows: Option<&Vec<Row>>) -> (r: String)
    ensures
        r@ == probe(*store, query@, rows_view(rows)),
{
    if !is_valid_arg(query) {
        return String::new();
    }
    match rows {
        None => "[embed KNN unavailable, embeddings not wired]".to_owned(),
        Some(v) => {
            if v.len() == 0 {
                return "[no KNN results]".to_owned();
            }
            proof {
                reveal_strlit("");
                assert(""@ =~= Seq::<char>::empty());
            }
            numbered_of(store, v, "")
        },
    }
}

/// The first score of a node; nothing where it has none.
pub open spec fn score_of(rows: Seq<Row>, id: u64) -> Seq<char>
    decreases rows.len(),
{
    if rows.len() == 0 {
        Seq::empty()
    } else if rows[0].id == id {
        rows[0].score@
    } else {
        score_of(rows.drop_first(), id)
    }
}

fn score_of_node(rows: &Vec<Row>, id: u64) -> (r: String)
    ensures
        r@ == score_of(rows@, id),
{
    let mut i: usize = 0;
    assert(rows@.skip(0) =~= rows@);
    while i < rows.len()
        invariant
            i <= rows@.len(),
            score_of(rows@, id) == score_of(rows@.skip(i as int), id),
        decreases rows@.len() - i,
    {
        assert(rows@.skip(i as int).drop_first() =~= rows@.skip(i + 1));
        if rows[i].id == id {
            return rows[i].score.clone();
        }
        i += 1;
    }
    let r = String::new();
    assert(r@ =~= Seq::<char>::empty());
    r
}

/// The lines of the seeds that the semantic search gives.
pub open spec fn knn_lines(store: Store, seeds: Seq<KnnHit>, scores: Seq<Row>) -> Seq<char>
    decreases seeds.len(),
{
    if seeds.len() == 0 {
        Seq::empty()
    } else {
        let rest = knn_lines(store, seeds.drop_last(), scores);
        match store.node(seeds.last().id) {
            Some(n) => rest + ("KNNSEED\t"@ + score_of(scores, seeds.last().id) + node_tail(n)),
            None => rest,
        }
    }
}

/// A score, or a dash.
pub open spec fn or_dash(s: Option<String>) -> Seq<char> {
    match s {
        Some(x) => x@,
        None => "-"@,
    }
}

/// The lines of the seeds.
pub open spec fn seed_lines(store: Store, seeds: Seq<SeedRow>) -> Seq<char>
    decreases seeds.len(),
{
    if seeds.len() == 0 {
        Seq::empty()
    } else {
        let rest = seed_lines(store, seeds.drop_last());
        let s = seeds.last();
        match store.node(s.id) {
            Some(n) => rest + ("FINAL\t"@ + crate::roles::source_label(s.source) + "\t"@ + s.weight@
                + "\t"@ + or_dash(s.rerank) + node_tail(n)),
            None => rest,
        }
    }
}

/// The stages of a search, one line per finding.
pub open spec fn traced(store: Store, query: Seq<char>, t: Option<Trace>) -> Seq<char> {
    if !crate::sanitize::arg_ok(query) {
        Seq::empty()
    } else {
        match t {
            None => "[embed KNN unavailable, embeddings not wired]"@,
            Some(t) => "CAL\t"@ + t.lo@ + "\t"@ + t.hi@ + "\n"@ + numbered(
                store,
                t.raw@,
                "RAWKNN\t"@,
            ) + knn_lines(
                store,
                crate::seeds::first(
                    crate::seeds::eligible(store, t.hits@, Seq::empty()),
                    crate::seeds::MAX_EMBED_SEEDS as nat,
                ),
                t.hit_scores@,
            ) + ("CONF\t"@ + t.confidence@ + "\n"@) + seed_lines(store, t.seeds@),
        }
    }
}

pub open spec fn trace_view(t: Option<&Trace>) -> Option<Trace> {
    match t {
        Some(x) => Some(*x),
        None => None,
    }
}

fn knn_lines_of(store: &Store, seeds: &Vec<KnnHit>, scores: &Vec<Row>) -> (r: String)
    ensures
        r@ == knn_lines(*store, seeds@, scores@),
{
    let mut r = String::new();
    assert(r@ =~= Seq::<char>::empty());
    let mut i: usize = 0;
    while i < seeds.len()
        invariant
            i <= seeds@.len(),
            r@ == knn_lines(*store, seeds@.take(i as int), scores@),
        decreases seeds@.len() - i,
    {
        assert(seeds@.take(i + 1).drop_last() =~= seeds@.take(i as int));
        if let Some(n) = store.get_node(seeds[i].id) {
            let score = score_of_node(scores, seeds[i].id);
            let tail = node_tail_of(n);
            let line = cat3("KNNSEED\t", score.as_str(), tail.as_str());
            r.append(line.as_str());
        }
        i += 1;
    }
    assert(seeds@.take(i as int) =~= seeds@);
    r
}

fn seed_lines_of(store: &Store, seeds: &Vec<SeedRow>) -> (r: String)
    ensures
        r@ == seed_lines(*store, seeds@),
{
    let mut r = String::new();
    assert(r@ =~= Seq::<char>::empty());
    let mut i: usize = 0;
    while i < seeds.len()
        invariant
            i <= seeds@.len(),
            r@ == seed_lines(*store, seeds@.take(i as int)),
        decreases seeds@.len() - i,
    {
        assert(seeds@.take(i + 1).drop_last() =~= seeds@.take(i as int));
        let s = &seeds[i];
        if let Some(n) = store.get_node(s.id) {
            let tail = node_tail_of(n);
            let mut line = cat3("FINAL\t", seed_source_label(s.source), "\t");
            line.append(s.weight.as_str());
            line.append("\t");
            let rerank: &str = match &s.rerank {
                Some(x) => x.as_str(),
                None => "-",
            };
            line.append(rerank);
            line.append(tail.as_str());
            r.append(line.as_str());
        }
        i += 1;
    }
    assert(seeds@.take(i as int) =~= seeds@);
    r
}

/// The stages of a search for seeds, one line per finding; `None` where there is no semantic search.
pub fn seed_trace(store: &Store, query: &str, trace: Option<&Trace>) -> (r: String)
    ensures
        r@ == traced(*store, query@, trace_view(trace)),
{
    if !is_valid_arg(query) {
        return String::new();
    }
    match trace {
        None => "[embed KNN unavailable, embeddings not wired]".to_owned(),
        Some(t) => {
            let denied: Vec<u64> = Vec::new();
            let knn = embed_path_seeds(store, &t.hits, &denied);
            let raw = numbered_of(store, &t.raw, "RAWKNN\t");
            let own = knn_lines_of(store, &knn.seeds, &t.hit_scores);
            let conf = cat3("CONF\t", t.confidence.as_str(), "\n");
            let last = seed_lines_of(store, &t.seeds);
            let mut r = cat3("CAL\t", t.lo.as_str(), "\t");
            r.append(t.hi.as_str());
            r.append("\n");
            r.append(raw.as_str());
            r.append(own.as_str());
            r.append(conf.as_str());
            r.append(last.as_str());
            r
        },
    }
}

} // verus!
