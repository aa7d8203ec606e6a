//! What the search for context found for a query.

use vstd::prelude::*;

use crate::docs::DocLane;
use crate::seeds::Weighted;
use crate::snippets::number_of;
use crate::store::Store;
use crate::text::{chars_of, same};

verus! {

/// How well the seeds match a query.
#[derive(Debug, Clone, Copy, PartialEq, Eq, Structural)]
pub enum Confidence {
    /// Nothing is grounded.
    Abstain,
    /// Only weakly.
    Weak,
    /// Well.
    Strong,
}

/// Which search found a seed.
#[derive(Debug, Clone, Copy, PartialEq, Eq, Structural)]
pub enum SeedSource {
    Exact,
    Lexical,
    Knn,
}

/// The seeds of a query.
#[derive(Debug)]
pub struct SeedSet {
    /// The nodes of the seeds, best first.
    pub seeds: Vec<u64>,
    /// The seeds with the weights that a walk starts with.
    pub weighted: Vec<Weighted>,
    /// For each term of the query, whether it is matched.
    pub resolved: Vec<bool>,
    pub confidence: Confidence,
    /// The name of the confidence.
    pub label: String,
    /// What is said where nothing is grounded.
    pub abstain: String,
    /// The most seeds that are listed where nothing is grounded.
    pub max_guesses: usize,
}

/// A node that the walk from the seeds reached.
#[derive(Debug)]
pub struct Ranked {
    pub id: u64,
    /// The score that nodes are ordered by, in billionths.
    pub weight: usize,
    /// The score is above the floor.
    pub clears_floor: bool,
    /// The score to two decimals.
    pub score: String,
    /// The score that is shown, in billionths.
    pub shown_weight: usize,
    /// The score that is shown, to two decimals.
    pub shown: String,
    /// The strongest search that found it as a seed.
    pub source: Option<SeedSource>,
}

impl Ranked {
    /// A copy.
    pub fn copy(&self) -> (r: Ranked)
        ensures
            r == *self,
    {
        Ranked {
            id: self.id,
            weight: self.weight,
            clears_floor: self.clears_floor,
            score: self.score.clone(),
            shown_weight: self.shown_weight,
            shown: self.shown.clone(),
            source: self.source,
        }
    }
}

/// What a setting says, if it is a positive number of at most `max`.
pub open spec fn positive(setting: Option<&str>, max: nat) -> Option<nat> {
    match setting {
        Some(s) => match crate::snippets::number(s@, max) {
            Some(n) => if n > 0 {
                Some(n)
            } else {
                None
            },
            None => None,
        },
        None => None,
    }
}

/// The milliseconds of a setting, or a default.
pub open spec fn or_default(n: Option<nat>, default: nat) -> nat {
    match n {
        Some(x) => x,
        None => default,
    }
}

fn positive_of(setting: Option<&str>, max: u128) -> (r: Option<u128>)
    ensures
        r is Some == positive(setting, max as nat) is Some,
        r matches Some(n) ==> n <= max && positive(setting, max as nat) == Some(n as nat),
{
    match setting {
        Some(s) => {
            let cs = chars_of(s);
            let n: usize = cs.len();
            assert(cs@.subrange(0, n as int) =~= s@);
            match number_of(&cs, 0, n, max) {
                Some(x) => if x > 0 {
                    Some(x)
                } else {
                    None
                },
                None => None,
            }
        },
        None => None,
    }
}

/// The milliseconds that a semantic search may take before its hits are dropped: those of the
/// setting, where it is a positive number.
pub fn knn_budget_ms(setting: Option<&str>) -> (r: u128)
    ensures
        r == or_default(positive(setting, u128::MAX as nat), 600),
{
    match positive_of(setting, u128::MAX) {
        Some(n) => n,
        None => 600,
    }
}

/// The milliseconds that a first request waits for the model to load: those of the setting, where
/// it is a positive number.
pub fn embed_arm_wait_ms(setting: Option<&str>) -> (r: u64)
    ensures
        r == or_default(positive(setting, u64::MAX as nat), 5000),
{
    match positive_of(setting, u64::MAX as u128) {
        Some(n) => n as u64,
        None => 5000,
    }
}

/// How the semantic search of a query went.
#[derive(Debug, Clone, Copy, PartialEq, Eq, Structural)]
pub struct EmbedRun {
    /// The model was loaded.
    pub ready: bool,
    pub elapsed_ms: u128,
    /// The time that it may take.
    pub budget_ms: u128,
}

impl EmbedRun {
    /// The search took longer than it may.
    pub open spec fn late(self) -> bool {
        self.elapsed_ms > self.budget_ms
    }

    /// Whether the search took longer than it may.
    pub fn is_late(&self) -> (r: bool)
        ensures
            r == self.late(),
    {
        self.elapsed_ms > self.budget_ms
    }
}

/// What was found for a query.
#[derive(Debug)]
pub struct Retrieval {
    pub query: String,
    /// The semantic search; `None` where none is configured.
    pub embed: Option<EmbedRun>,
    pub seeds: SeedSet,
    pub docs: DocLane,
    /// The nodes around the seeds; `None` where the walk or the lookup of its nodes failed.
    pub ranked: Option<Vec<Ranked>>,
    /// The nodes that were chosen to fit the budget, in order.
    pub selected: Vec<u64>,
    /// Larger answers are divided into sections.
    pub grouping: bool,
}

impl Retrieval {
    /// The semantic search is configured and not ready.
    pub open spec fn warming(self) -> bool {
        self.embed matches Some(e) && !e.ready
    }

    /// The semantic search took too long, so that its hits are not used.
    pub open spec fn degraded(self) -> bool {
        self.embed matches Some(e) && e.late()
    }

    /// Whether the semantic search is configured and not ready.
    pub fn is_warming(&self) -> (r: bool)
        ensures
            r == self.warming(),
    {
        match self.embed {
            Some(e) => !e.ready,
            None => false,
        }
    }

    /// Whether the semantic search took too long.
    pub fn is_degraded(&self) -> (r: bool)
        ensures
            r == self.degraded(),
    {
        match self.embed {
            Some(e) => e.is_late(),
            None => false,
        }
    }
}

/// The first record for a query, with or without a semantic search.
pub open spec fn retrieval_of(v: Seq<Retrieval>, query: Seq<char>, embed: bool) -> Option<Retrieval>
    decreases v.len(),
{
    if v.len() == 0 {
        None
    } else if retrieval_of(v.drop_last(), query, embed) is Some {
        retrieval_of(v.drop_last(), query, embed)
    } else if v.last().query@ == query && (v.last().embed is Some) == embed {
        Some(v.last())
    } else {
        None
    }
}

impl Store {
    /// What was found for a query.
    pub fn retrieval(&self, query: &str, embed: bool) -> (r: Option<&Retrieval>)
        ensures
            r is Some == retrieval_of(self.retrievals@, query@, embed) is Some,
            r matches Some(x) ==> retrieval_of(self.retrievals@, query@, embed) == Some(*x),
    {
        let mut r: Option<&Retrieval> = None;
        let mut i: usize = 0;
        while i < self.retrievals.len()
            invariant
                i <= self.retrievals@.len(),
                r is Some == retrieval_of(self.retrievals@.take(i as int), query@, embed) is Some,
                r matches Some(x) ==> retrieval_of(
                    self.retrievals@.take(i as int),
                    query@,
                    embed,
                ) == Some(*x),
            decreases self.retrievals@.len() - i,
        {
            assert(self.retrievals@.take(i + 1).drop_last() =~= self.retrievals@.take(i as int));
            let x = &self.retrievals[i];
            if r.is_none() && same(x.query.as_str(), query) && x.embed.is_some() == embed {
                r = Some(x);
            }
            i += 1;
        }
        assert(self.retrievals@.take(i as int) =~= self.retrievals@);
        r
    }
}

} // verus!
