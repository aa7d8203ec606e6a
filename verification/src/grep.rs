//! The runs of a textual search, one after the other.

use vstd::prelude::*;

use crate::pattern::{
    batch_pass_args, first_pass_args, includes_again, run_git_grep, second_pass, OutcomeView,
    PassOutput,
};
use crate::store::{opt_view, GrepOutcome};

verus! {

/// What is searched, and where.
#[derive(Debug)]
pub struct Search {
    pub root: String,
    pub pattern: String,
    pub pathspecs: Vec<String>,
    pub fixed: bool,
    pub threads: usize,
    /// The rule file of the repository.
    pub rules: Option<String>,
    /// The indexer's list of directories that it never enters.
    pub unindexed: Vec<String>,
}

/// What has come back so far.
#[derive(Debug)]
pub struct Progress {
    /// The first run.
    pub first: Option<PassOutput>,
    /// The batches that are searched after it, once they are known.
    pub batches: Option<Vec<Vec<String>>>,
    /// The runs over the batches, in order.
    pub rest: Vec<PassOutput>,
}

/// What is to be done next.
#[derive(Debug)]
pub enum Action {
    /// Run the search tool with these arguments.
    Run(Vec<String>),
    /// List the files that git ignores.
    List,
    /// Nothing more: the outcome.
    Finish(GrepOutcome),
}

/// What is to be done next, as values.
pub enum ActionView {
    Run(Seq<Seq<char>>),
    List,
    Finish(OutcomeView),
}

impl View for Action {
    type V = ActionView;

    open spec fn view(&self) -> ActionView {
        match *self {
            Action::Run(args) => ActionView::Run(crate::text::views(args@)),
            Action::List => ActionView::List,
            Action::Finish(o) => ActionView::Finish(o@),
        }
    }
}

/// The text of an optional string.
pub open spec fn text_of(s: Option<String>) -> Option<Seq<char>> {
    match s {
        Some(t) => Some(t@),
        None => None,
    }
}

/// The run gave no result.
pub open spec fn has_failed(out: PassOutput) -> bool {
    crate::pattern::pass_result(out) is Err
}

fn failed(out: &PassOutput) -> (r: bool)
    ensures
        r == has_failed(*out),
{
    match out {
        PassOutput::Exited { code, .. } => match code {
            Some(0) => false,
            Some(1) => false,
            _ => true,
        },
        _ => true,
    }
}

impl Search {
    /// The outcome of the search with what has come back.
    pub open spec fn outcome(self, first: PassOutput, rest: Seq<PassOutput>) -> OutcomeView {
        crate::pattern::outcome(
            self.root@,
            text_of(self.rules),
            first,
            rest,
            crate::text::views(self.unindexed@),
        )
    }

    /// The batches that are searched after the first run.
    pub open spec fn batches(self, listing: Option<Seq<char>>) -> Seq<Seq<Seq<char>>> {
        crate::pattern::batches(
            crate::text::chosen(
                crate::pattern::reincluded(
                    self.root@,
                    text_of(self.rules),
                    listing,
                    crate::text::views(self.unindexed@),
                ),
                |p: Seq<char>| crate::pattern::in_scopes(p, crate::text::views(self.pathspecs@)),
            ),
        )
    }

    /// The rules may include files that git ignores, so that these have to be listed.
    pub open spec fn needs_listing(self) -> bool {
        self.rules matches Some(c) && crate::pattern::has_negation(c@)
    }

    fn rules_text(&self) -> (r: Option<&str>)
        ensures
            opt_view(r) == text_of(self.rules),
    {
        match &self.rules {
            Some(c) => Some(c.as_str()),
            None => None,
        }
    }

    fn finish(&self, first: &PassOutput, rest: &Vec<PassOutput>) -> (r: Action)
        ensures
            r@ == ActionView::Finish(self.outcome(*first, rest@)),
    {
        Action::Finish(
            run_git_grep(self.root.as_str(), self.rules_text(), first, rest, &self.unindexed),
        )
    }
}

impl Progress {
    /// Nothing has come back yet.
    pub fn new() -> (r: Progress)
        ensures
            r.first is None,
            r.batches is None,
            r.rest@.len() == 0,
    {
        Progress { first: None, batches: None, rest: Vec::new() }
    }

    /// The last run over a batch failed.
    pub open spec fn has_stopped(self) -> bool {
        self.rest@.len() > 0 && has_failed(self.rest@.last())
    }

    /// What is to be done next: the first run; then, unless it failed, the listing of what git ignores
    /// where the rules may include some of it; then one run per batch, up to the first that fails.
    pub open spec fn action(self, search: Search) -> ActionView {
        match self.first {
            None => ActionView::Run(
                crate::pattern::first_args(
                    search.root@,
                    search.pattern@,
                    crate::text::views(search.pathspecs@),
                    search.fixed,
                    search.threads as nat,
                ),
            ),
            Some(first) => if has_failed(first) {
                ActionView::Finish(search.outcome(first, self.rest@))
            } else {
                match self.batches {
                    None => if search.needs_listing() {
                        ActionView::List
                    } else {
                        ActionView::Finish(search.outcome(first, self.rest@))
                    },
                    Some(b) => if self.has_stopped() || self.rest@.len() >= b@.len() {
                        ActionView::Finish(search.outcome(first, self.rest@))
                    } else {
                        ActionView::Run(
                            crate::pattern::batch_args(
                                search.root@,
                                search.pattern@,
                                crate::text::views(b@[self.rest@.len() as int]@),
                                search.fixed,
                                search.threads as nat,
                            ),
                        )
                    },
                }
            },
        }
    }

    /// What is to be done next.
    pub fn next(&self, search: &Search) -> (r: Action)
        ensures
            r@ == self.action(*search),
    {
        let first = match &self.first {
            None => {
                return Action::Run(
                    first_pass_args(
                        search.root.as_str(),
                        search.pattern.as_str(),
                        &search.pathspecs,
                        search.fixed,
                        search.threads,
                    ),
                );
            },
            Some(f) => f,
        };
        if failed(first) {
            return search.finish(first, &self.rest);
        }
        let n: usize = self.rest.len();
        match &self.batches {
            None => {
                let listed = match &search.rules {
                    Some(c) => includes_again(c.as_str()),
                    None => false,
                };
                if listed {
                    Action::List
                } else {
                    search.finish(first, &self.rest)
                }
            },
            Some(b) => {
                if n >= b.len() || (n > 0 && failed(&self.rest[n - 1])) {
                    search.finish(first, &self.rest)
                } else {
                    Action::Run(
                        batch_pass_args(
                            search.root.as_str(),
                            search.pattern.as_str(),
                            &b[n],
                            search.fixed,
                            search.threads,
                        ),
                    )
                }
            },
        }
    }

    /// A run has ended.
    pub fn ran(&mut self, out: PassOutput)
        ensures
            old(self).first is None ==> final(self).first == Some(out) && final(self).rest@ == old(
                self,
            ).rest@,
            old(self).first is Some ==> final(self).first == old(self).first && final(self).rest@
                == old(self).rest@.push(out),
            final(self).batches == old(self).batches,
    {
        if self.first.is_none() {
            self.first = Some(out);
        } else {
            self.rest.push(out);
        }
    }

    /// The files that git ignores have been listed, separated by NUL; `None` where that failed.
    pub fn listed(&mut self, search: &Search, listing: Option<&str>)
        ensures
            final(self).first == old(self).first,
            final(self).rest@ == old(self).rest@,
            final(self).batches is Some,
            crate::pattern::batch_views(final(self).batches->0@) == search.batches(
                opt_view(listing),
            ),
    {
        self.batches = Some(
            second_pass(
                search.root.as_str(),
                search.rules_text(),
                listing,
                &search.pathspecs,
                &search.unindexed,
            ),
        );
    }
}

/// Nothing is run after a run that failed.
pub proof fn law_failure_ends_the_search(search: Search, progress: Progress)
    requires
        progress.first matches Some(f) && (has_failed(f) || progress.batches is Some
            && progress.has_stopped()),
    ensures
        progress.action(search) is Finish,
{
}

/// A search ends: what is run after the first run is a batch that has not been searched yet, and the
/// files that git ignores are listed only while the batches are unknown.
pub proof fn law_search_ends(search: Search, progress: Progress)
    requires
        progress.first is Some,
    ensures
        progress.action(search) is Run ==> (progress.batches matches Some(b)
            && progress.rest@.len() < b@.len()),
        progress.action(search) is List ==> progress.batches is None,
{
}

/// Without rules that include files again, one run is the whole search.
pub proof fn law_one_run_without_inclusions(search: Search, progress: Progress)
    requires
        !search.needs_listing(),
        progress.first is Some,
        progress.batches is None,
    ensures
        progress.action(search) is Finish,
{
}

} // verus!
