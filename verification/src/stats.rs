//! Counts over the graph.

use vstd::prelude::*;

use crate::global::{candidates, Repo};
use crate::store::{opt_view, Store};
use crate::text::{cat3, dec_u64, join_strings};

verus! {

/// A count that may be unreadable; unreadable counts as zero.
pub open spec fn count_or_zero(n: Option<u64>) -> nat {
    match n {
        Some(v) => v as nat,
        None => 0,
    }
}

fn or_zero(n: Option<u64>) -> (r: u64)
    ensures
        r == count_or_zero(n),
{
    match n {
        Some(v) => v,
        None => 0,
    }
}

/// The counts of one graph.
pub open spec fn graph_stats(store: Store) -> Seq<char> {
    "nodes: "@ + crate::text::dec(count_or_zero(store.node_total)) + "\nedges: "@
        + crate::text::dec(count_or_zero(store.edge_total)) + "\nschema_version: "@
        + crate::text::dec(count_or_zero(store.schema_version))
}

/// The number of nodes and edges and the version of the schema, one per line.
pub fn get_graph_stats(store: &Store) -> (r: String)
    ensures
        r@ == graph_stats(*store),
{
    let nodes = dec_u64(or_zero(store.node_total));
    let edges = dec_u64(or_zero(store.edge_total));
    let version = dec_u64(or_zero(store.schema_version));
    let mut s = cat3("nodes: ", nodes.as_str(), "\nedges: ");
    s.append(edges.as_str());
    s.append("\nschema_version: ");
    s.append(version.as_str());
    s
}

/// The nodes and edges of the first `n` of the given repositories that open.
pub open spec fn totals(repos: Seq<Repo>, places: Seq<int>, n: int) -> (nat, nat)
    decreases n,
{
    if n <= 0 {
        (0, 0)
    } else {
        let t = totals(repos, places, n - 1);
        match repos[places[n - 1]].store {
            Some(s) => (
                t.0 + count_or_zero(s.node_total),
                t.1 + count_or_zero(s.edge_total),
            ),
            None => t,
        }
    }
}

/// The nodes and edges of all addressed repositories.
pub open spec fn all_totals(repos: Seq<Repo>, repo: Option<Seq<char>>) -> (nat, nat) {
    let places = crate::global::addressed(repos, repo);
    totals(repos, places, places.len() as int)
}

proof fn lemma_totals_grow(repos: Seq<Repo>, places: Seq<int>, n: int, m: int)
    requires
        n <= m,
    ensures
        totals(repos, places, n).0 <= totals(repos, places, m).0,
        totals(repos, places, n).1 <= totals(repos, places, m).1,
    decreases m,
{
    if n < m && m > 0 {
        lemma_totals_grow(repos, places, n, m - 1);
    }
}

/// The sums over the addressed repositories that each fit a machine word; `None` where one does not.
fn totals_of(repos: &Vec<Repo>, repo: Option<&str>) -> (r: Option<(u64, u64)>)
    ensures
        r is Some == (all_totals(repos@, opt_view(repo)).0 <= u64::MAX && all_totals(
            repos@,
            opt_view(repo),
        ).1 <= u64::MAX),
        r matches Some(t) ==> (t.0 as nat, t.1 as nat) == all_totals(repos@, opt_view(repo)),
{
    let picks = candidates(repos, repo);
    let ghost places = crate::global::addressed(repos@, opt_view(repo));
    assert(places.len() == picks@.len());
    let mut nodes: u64 = 0;
    let mut edges: u64 = 0;
    let mut k: usize = 0;
    while k < picks.len()
        invariant
            k <= picks@.len(),
            places == crate::rank::ints(picks@),
            places.len() == picks@.len(),
            places == crate::global::addressed(repos@, opt_view(repo)),
            forall|j: int| 0 <= j < picks@.len() ==> #[trigger] picks@[j] < repos@.len(),
            (nodes as nat, edges as nat) == totals(repos@, places, k as int),
        decreases picks@.len() - k,
    {
        assert(places[k as int] == picks@[k as int]);
        proof {
            lemma_totals_grow(repos@, places, k + 1, places.len() as int);
        }
        if let Some(s) = &repos[picks[k]].store {
            let (n, e) = (or_zero(s.node_total), or_zero(s.edge_total));
            if n > u64::MAX - nodes || e > u64::MAX - edges {
                return None;
            }
            nodes += n;
            edges += e;
        }
        k += 1;
    }
    Some((nodes, edges))
}

/// Whether the sums over the addressed repositories fit a machine word.
pub fn totals_fit(repos: &Vec<Repo>, repo: Option<&str>) -> (r: bool)
    ensures
        r == (all_totals(repos@, opt_view(repo)).0 <= u64::MAX && all_totals(
            repos@,
            opt_view(repo),
        ).1 <= u64::MAX),
{
    totals_of(repos, repo).is_some()
}

/// The number of nodes and edges, summed over one named repository or all.
pub fn get_graph_stats_global(repos: &Vec<Repo>, repo: Option<&str>) -> (r: String)
    requires
        all_totals(repos@, opt_view(repo)).0 <= u64::MAX,
        all_totals(repos@, opt_view(repo)).1 <= u64::MAX,
    ensures
        r@ == "nodes: "@ + crate::text::dec(all_totals(repos@, opt_view(repo)).0) + "\nedges: "@
            + crate::text::dec(all_totals(repos@, opt_view(repo)).1),
{
    let (nodes, edges) = match totals_of(repos, repo) {
        Some(t) => t,
        None => (0, 0),
    };
    let a = dec_u64(nodes);
    let b = dec_u64(edges);
    let mut s = cat3("nodes: ", a.as_str(), "\nedges: ");
    s.append(b.as_str());
    s
}

/// One line per language.
pub open spec fn language_lines(pairs: Seq<(String, u64)>) -> Seq<Seq<char>> {
    Seq::new(pairs.len(), |i: int| pairs[i].0@ + "\t"@ + crate::text::dec(pairs[i].1 as nat))
}

/// The nodes per language as tab-separated lines; nothing where they cannot be read.
pub fn repo_languages(store: &Store) -> (r: String)
    ensures
        r@ == (match store.languages {
            Some(pairs) => crate::text::join(language_lines(pairs@), "\n"@),
            None => Seq::empty(),
        }),
{
    match &store.languages {
        Some(pairs) => {
            let ghost want = language_lines(pairs@);
            let mut lines: Vec<String> = Vec::new();
            let mut i: usize = 0;
            while i < pairs.len()
                invariant
                    i <= pairs@.len(),
                    want == language_lines(pairs@),
                    lines@.len() == i,
                    forall|j: int| 0 <= j < i ==> #[trigger] lines@[j]@ == want[j],
                decreases pairs@.len() - i,
            {
                let d = dec_u64(pairs[i].1);
                lines.push(cat3(pairs[i].0.as_str(), "\t", d.as_str()));
                i += 1;
            }
            assert(crate::text::views(lines@) =~= want);
            join_strings(&lines, "\n")
        },
        None => String::new(),
    }
}

/// A single repository's total is its own count.
pub proof fn law_totals_of_one_are_its_own(repos: Seq<Repo>, i: int)
    requires
        0 <= i < repos.len(),
    ensures
        totals(repos, seq![i], 1) == (match repos[i].store {
            Some(s) => (count_or_zero(s.node_total), count_or_zero(s.edge_total)),
            None => (0nat, 0nat),
        }),
{
    reveal_with_fuel(totals, 2);
}

} // verus!
