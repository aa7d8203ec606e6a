//! Answers over several registered repositories.

use vstd::prelude::*;

use crate::sanitize::is_valid_arg;
use crate::split::lines_of;
use crate::store::{opt_view, Store};
use crate::text::{cat3, join_strings, same};

verus! {

/// A registered repository.
#[derive(Debug)]
pub struct Repo {
    pub name: String,
    /// The database file exists.
    pub live: bool,
    /// The graph; `None` where the database could not be opened.
    pub store: Option<Store>,
    /// The short commit hash of the repository's own checkout, where it is known.
    pub head: Option<String>,
}

impl Repo {
    pub open spec fn head_view(self) -> Option<Seq<char>> {
        match self.head {
            Some(h) => Some(h@),
            None => None,
        }
    }

    /// The commit of the checkout.
    pub fn head_ref(&self) -> (r: Option<&str>)
        ensures
            opt_view(r) == self.head_view(),
    {
        match &self.head {
            Some(h) => Some(h.as_str()),
            None => None,
        }
    }
}

/// The place of the first repository with the given name.
pub open spec fn named(repos: Seq<Repo>, name: Seq<char>) -> Option<int>
    decreases repos.len(),
{
    if repos.len() == 0 {
        None
    } else if named(repos.drop_last(), name) is Some {
        named(repos.drop_last(), name)
    } else if repos.last().name@ == name {
        Some(repos.len() - 1)
    } else {
        None
    }
}

/// The places of the repositories whose database file exists.
pub open spec fn live(repos: Seq<Repo>) -> Seq<int>
    decreases repos.len(),
{
    if repos.len() == 0 {
        Seq::empty()
    } else if repos.last().live {
        live(repos.drop_last()).push(repos.len() - 1)
    } else {
        live(repos.drop_last())
    }
}

/// The places of the repositories that a request addresses: the named one, or all; entries whose
/// database file is gone are left out, and so is everything where the name is not a valid argument.
pub open spec fn addressed(repos: Seq<Repo>, target: Option<Seq<char>>) -> Seq<int> {
    match target {
        Some(name) => if !crate::sanitize::arg_ok(name) {
            Seq::empty()
        } else {
            match named(repos, name) {
                Some(i) => if repos[i].live {
                    seq![i]
                } else {
                    Seq::empty()
                },
                None => Seq::empty(),
            }
        },
        None => live(repos),
    }
}

pub proof fn lemma_named(repos: Seq<Repo>, name: Seq<char>)
    ensures
        named(repos, name) matches Some(i) ==> 0 <= i < repos.len() && repos[i].name@ == name,
        named(repos, name) is None ==> forall|i: int|
            0 <= i < repos.len() ==> #[trigger] repos[i].name@ != name,
    decreases repos.len(),
{
    if repos.len() > 0 {
        lemma_named(repos.drop_last(), name);
        if named(repos, name) is None {
            assert forall|i: int| 0 <= i < repos.len() implies #[trigger] repos[i].name@ != name by {
                if i < repos.len() - 1 {
                    assert(repos.drop_last()[i] == repos[i]);
                }
            }
        }
    }
}

pub proof fn lemma_live(repos: Seq<Repo>)
    ensures
        forall|k: int|
            0 <= k < live(repos).len() ==> 0 <= #[trigger] live(repos)[k] < repos.len()
                && repos[live(repos)[k]].live,
    decreases repos.len(),
{
    if repos.len() > 0 {
        lemma_live(repos.drop_last());
        assert forall|k: int| 0 <= k < live(repos).len() implies 0 <= #[trigger] live(repos)[k]
            < repos.len() && repos[live(repos)[k]].live by {
            if k < live(repos.drop_last()).len() {
                assert(live(repos)[k] == live(repos.drop_last())[k]);
                assert(repos.drop_last()[live(repos)[k]] == repos[live(repos)[k]]);
            }
        }
    }
}

/// The addressed repositories exist and are live.
pub proof fn lemma_addressed(repos: Seq<Repo>, target: Option<Seq<char>>)
    ensures
        forall|k: int|
            0 <= k < addressed(repos, target).len() ==> 0 <= #[trigger] addressed(repos, target)[k]
                < repos.len() && repos[addressed(repos, target)[k]].live,
{
    lemma_live(repos);
    if let Some(name) = target {
        lemma_named(repos, name);
    }
}

/// The repositories that a request addresses.
pub fn candidates(repos: &Vec<Repo>, target: Option<&str>) -> (r: Vec<usize>)
    ensures
        crate::rank::ints(r@) == addressed(repos@, opt_view(target)),
        forall|k: int| 0 <= k < r@.len() ==> #[trigger] r@[k] < repos@.len(),
{
    let mut r: Vec<usize> = Vec::new();
    proof {
        lemma_addressed(repos@, opt_view(target));
    }
    match target {
        Some(name) => {
            if !is_valid_arg(name) {
                assert(crate::rank::ints(r@) =~= Seq::<int>::empty());
                return r;
            }
            let mut i: usize = 0;
            while i < repos.len()
                invariant
                    i <= repos@.len(),
                    r@.len() == 0,
                    named(repos@.take(i as int), name@) is None,
                    target == Some(name),
                    crate::sanitize::arg_ok(name@),
                decreases repos@.len() - i,
            {
                assert(repos@.take(i + 1).drop_last() =~= repos@.take(i as int));
                if same(repos[i].name.as_str(), name) {
                    proof {
                        lemma_named_take(repos@, name@, i + 1);
                        assert(named(repos@.take(i + 1), name@) == Some(i as int));
                    }
                    if repos[i].live {
                        r.push(i);
                        assert(crate::rank::ints(r@) =~= seq![i as int]);
                    } else {
                        assert(crate::rank::ints(r@) =~= Seq::<int>::empty());
                    }
                    return r;
                }
                i += 1;
            }
            assert(repos@.take(i as int) =~= repos@);
            assert(crate::rank::ints(r@) =~= Seq::<int>::empty());
            r
        },
        None => {
            let mut i: usize = 0;
            assert(crate::rank::ints(r@) =~= Seq::<int>::empty());
            while i < repos.len()
                invariant
                    i <= repos@.len(),
                    crate::rank::ints(r@) == live(repos@.take(i as int)),
                    forall|k: int| 0 <= k < r@.len() ==> #[trigger] r@[k] < repos@.len(),
                decreases repos@.len() - i,
            {
                assert(repos@.take(i + 1).drop_last() =~= repos@.take(i as int));
                if repos[i].live {
                    let ghost before = r@;
                    r.push(i);
                    assert(crate::rank::ints(r@) =~= crate::rank::ints(before).push(i as int));
                }
                i += 1;
            }
            assert(repos@.take(i as int) =~= repos@);
            r
        },
    }
}

proof fn lemma_named_take(repos: Seq<Repo>, name: Seq<char>, i: int)
    requires
        0 <= i <= repos.len(),
        named(repos.take(i), name) is Some,
    ensures
        named(repos, name) == named(repos.take(i), name),
    decreases repos.len(),
{
    if i < repos.len() {
        assert(repos.drop_last().take(i) =~= repos.take(i));
        lemma_named_take(repos.drop_last(), name, i);
    } else {
        assert(repos.take(i) =~= repos);
    }
}

/// The parts that are not empty, one below the other.
pub open spec fn stacked(parts: Seq<Seq<char>>) -> Seq<char> {
    crate::text::join(crate::text::nonempty(parts), "\n"@)
}

/// Stacks the parts that are not empty.
pub fn stack(parts: Vec<String>) -> (r: String)
    ensures
        r@ == stacked(crate::text::views(parts@)),
{
    let mut kept: Vec<String> = Vec::new();
    let mut i: usize = 0;
    while i < parts.len()
        invariant
            i <= parts@.len(),
            crate::text::views(kept@) == crate::text::nonempty(
                crate::text::views(parts@).take(i as int),
            ),
        decreases parts@.len() - i,
    {
        let ghost all = crate::text::views(parts@);
        assert(all.take(i + 1).drop_last() =~= all.take(i as int));
        assert(all.take(i + 1).last() == parts@[i as int]@);
        if !parts[i].as_str().is_empty() {
            proof {
                crate::text::lemma_views_push(kept@, parts@[i as int]);
            }
            kept.push(parts[i].clone());
        }
        i += 1;
    }
    assert(crate::text::views(parts@).take(i as int) =~= crate::text::views(parts@));
    join_strings(&kept, "\n")
}

/// What the request gives for one addressed repository; nothing where its database does not open.
pub open spec fn part_at(
    repos: Seq<Repo>,
    places: Seq<int>,
    k: int,
    part: spec_fn(Repo, Store, bool) -> Seq<char>,
) -> Seq<char> {
    match repos[places[k]].store {
        Some(store) => part(repos[places[k]], store, places.len() == 1),
        None => Seq::empty(),
    }
}

/// The parts of all addressed repositories. A part is told whether it is the only one.
pub open spec fn gathered(
    repos: Seq<Repo>,
    target: Option<Seq<char>>,
    part: spec_fn(Repo, Store, bool) -> Seq<char>,
) -> Seq<char> {
    let places = addressed(repos, target);
    stacked(Seq::new(places.len(), |k: int| part_at(repos, places, k, part)))
}

/// Runs a request on every addressed repository and stacks the answers.
pub(crate) fn collect_global<F: Fn(&Repo, &Store, bool) -> String>(
    repos: &Vec<Repo>,
    target: Option<&str>,
    f: F,
    Ghost(part): Ghost<spec_fn(Repo, Store, bool) -> Seq<char>>,
) -> (r: String)
    requires
        forall|x: &Repo, s: &Store, b: bool| call_requires(f, (x, s, b)),
        forall|x: &Repo, s: &Store, b: bool, o: String| #[trigger]
            call_ensures(f, (x, s, b), o) ==> o@ == part(*x, *s, b),
    ensures
        r@ == gathered(repos@, opt_view(target), part),
{
    let picks = candidates(repos, target);
    let ghost places = addressed(repos@, opt_view(target));
    let single = picks.len() == 1;
    let mut parts: Vec<String> = Vec::new();
    let mut k: usize = 0;
    assert(picks@.len() == crate::rank::ints(picks@).len());
    while k < picks.len()
        invariant
            k <= picks@.len(),
            parts@.len() == k,
            places == crate::rank::ints(picks@),
            single == (places.len() == 1),
            forall|j: int| 0 <= j < picks@.len() ==> #[trigger] picks@[j] < repos@.len(),
            forall|x: &Repo, s: &Store, b: bool| call_requires(f, (x, s, b)),
            forall|x: &Repo, s: &Store, b: bool, o: String| #[trigger]
                call_ensures(f, (x, s, b), o) ==> o@ == part(*x, *s, b),
            forall|j: int| 0 <= j < k ==> #[trigger] parts@[j]@ == part_at(repos@, places, j, part),
        decreases picks@.len() - k,
    {
        let repo = &repos[picks[k]];
        assert(places[k as int] == picks@[k as int]);
        let one = match &repo.store {
            Some(store) => f(repo, store, single),
            None => {
                let e = String::new();
                assert(e@ =~= Seq::<char>::empty());
                e
            },
        };
        assert(one@ == part_at(repos@, places, k as int, part));
        parts.push(one);
        k += 1;
    }
    assert(crate::text::views(parts@) =~= Seq::new(
        places.len(),
        |k: int| part_at(repos@, places, k, part),
    ));
    stack(parts)
}

/// A line marked with the name of its repository.
pub open spec fn marked_line(name: Seq<char>, line: Seq<char>) -> Seq<char> {
    "["@ + name + "] "@ + line
}

/// Every line of a body marked with the name of its repository.
pub open spec fn marked(name: Seq<char>, body: Seq<char>) -> Seq<char> {
    let ls = crate::split::lines(body);
    crate::text::join(Seq::new(ls.len(), |i: int| marked_line(name, ls[i])), "\n"@)
}

/// A body as one of several: each line marked, unless it is the only one or empty.
pub open spec fn attributed(name: Seq<char>, body: Seq<char>, single: bool) -> Seq<char> {
    if body.len() == 0 || single {
        body
    } else {
        marked(name, body)
    }
}

/// Marks each line of a body with the name of its repository, unless it is the only one.
pub fn attribute(name: &str, body: String, single: bool) -> (r: String)
    ensures
        r@ == attributed(name@, body@, single),
{
    if body.as_str().is_empty() || single {
        return body;
    }
    let ls = lines_of(body.as_str());
    let ghost want = crate::split::lines(body@);
    let mut out: Vec<String> = Vec::new();
    let mut i: usize = 0;
    assert(crate::text::views(ls@).len() == ls@.len());
    while i < ls.len()
        invariant
            i <= ls@.len(),
            out@.len() == i,
            crate::text::views(ls@) == want,
            forall|j: int| 0 <= j < i ==> #[trigger] out@[j]@ == marked_line(name@, want[j]),
        decreases ls@.len() - i,
    {
        let mut s = cat3("[", name, "] ");
        s.append(ls[i].as_str());
        assert(want[i as int] == ls@[i as int]@);
        out.push(s);
        i += 1;
    }
    assert(crate::text::views(out@) =~= Seq::new(
        want.len(),
        |i: int| marked_line(name@, want[i]),
    ));
    join_strings(&out, "\n")
}

/// A request on an invalid or unknown repository name gathers nothing.
pub proof fn law_unknown_repository_gives_nothing(
    repos: Seq<Repo>,
    name: Seq<char>,
    part: spec_fn(Repo, Store, bool) -> Seq<char>,
)
    requires
        !crate::sanitize::arg_ok(name) || forall|i: int|
            0 <= i < repos.len() ==> #[trigger] repos[i].name@ != name,
    ensures
        gathered(repos, Some(name), part) == Seq::<char>::empty(),
{
    lemma_named(repos, name);
    let places = addressed(repos, Some(name));
    assert(places =~= Seq::empty());
    let parts = Seq::new(places.len(), |k: int| part_at(repos, places, k, part));
    assert(parts =~= Seq::empty());
    assert(crate::text::nonempty(parts) =~= Seq::empty());
}

} // verus!
