//! Laws on requests over several repositories.

use vstd::prelude::*;

use crate::global::{gathered, Repo};
use crate::lines::holds;
use crate::blast::AnalysisMode;
use crate::sanitize::{arg_ok, scalar};
use crate::split::lines;
use crate::store::Store;
use crate::store::opt_view;

verus! {

/// The repository has its database, and no other before it has its name.
pub open spec fn is_open(repos: Seq<Repo>, i: int, store: Store) -> bool {
    &&& 0 <= i < repos.len()
    &&& repos[i].live
    &&& repos[i].store == Some(store)
    &&& arg_ok(repos[i].name@)
    &&& forall|j: int| 0 <= j < i ==> (#[trigger] repos[j]).name@ != repos[i].name@
}

/// The commit that the repository is at.
pub open spec fn checkout(repo: Repo) -> Option<Seq<char>> {
    match repo.head {
        Some(h) => Some(h@),
        None => None,
    }
}

/// The answer is made of a text that has the line after the name of the repository.
pub open spec fn tells(answer: Seq<char>, repo: Repo, l: Seq<char>, t: Seq<char>) -> bool {
    answer == scalar(t) && holds(t, "["@ + repo.name@ + "] "@ + l)
}

proof fn lemma_marked(
    repos: Seq<Repo>,
    part: spec_fn(Repo, Store, bool) -> Seq<char>,
    i: int,
    store: Store,
    text: Seq<char>,
    k: int,
)
    requires
        is_open(repos, i, store),
        repos.filter(|r: Repo| r.live).len() > 1,
        text.len() > 0,
        holds(
            part(repos[i], store, false),
            crate::global::attributed(repos[i].name@, text, false),
        ),
        0 <= k < lines(text).len(),
    ensures
        holds(gathered(repos, None, part), "["@ + repos[i].name@ + "] "@ + lines(text)[k]),
{
    let name = repos[i].name@;
    let x = "["@ + name + "] "@ + lines(text)[k];
    let own = crate::global::attributed(name, text, false);
    crate::global_laws::law_lines_carry_their_repository(name, text);
    assert(crate::lines::has_line(own, x));
    let a = choose|a: int| crate::lines::line_at(own, x, a);
    assert(own.subrange(a, a + x.len()) == x);
    assert(holds(own, x));
    let whole = part(repos[i], store, false);
    crate::lines::lemma_holds_within(whole, own, x);
    reveal_strlit("[");
    assert(x.len() > 0);
    assert(whole.len() > 0);
    crate::global_laws::law_every_repository_answers(repos, part, i, store);
    crate::lines::lemma_holds_within(gathered(repos, None, part), whole, x);
}

/// A repository that is asked for its callers by name gives those of its index, with the notes on it.
pub proof fn law_callers_in_a_named_repository(repos: Seq<Repo>, i: int, store: Store, symbol: Seq<char>)
    requires
        is_open(repos, i, store),
        arg_ok(symbol),
    ensures
        crate::callers::callers_global(repos, symbol, Some(repos[i].name@)) == scalar(
            crate::notes::read_notes(
                store,
                crate::callers::callers(store, symbol),
                checkout(repos[i]),
            ),
        ),
{
    crate::global_laws::law_named_repository_answers_alone(
        repos,
        crate::callers::callers_parts(symbol),
        i,
        store,
    );
}

/// Over several repositories every line that one of them gives of its callers is told, after the name of the repository.
pub proof fn law_callers_in_every_repository(
    repos: Seq<Repo>,
    i: int,
    store: Store,
    symbol: Seq<char>,
    k: int,
)
    requires
        is_open(repos, i, store),
        repos.filter(|r: Repo| r.live).len() > 1,
        arg_ok(symbol),
        0 <= k < lines(
            crate::notes::read_notes(store, crate::callers::callers(store, symbol), checkout(repos[i])),
        ).len(),
    ensures
        exists|t: Seq<char>| #[trigger]
            tells(
                crate::callers::callers_global(repos, symbol, None),
                repos[i],
                lines(
                    crate::notes::read_notes(
                        store,
                        crate::callers::callers(store, symbol),
                        checkout(repos[i]),
                    ),
                )[k],
                t,
            ),
{
    let text = crate::notes::read_notes(
        store,
        crate::callers::callers(store, symbol),
        checkout(repos[i]),
    );
    let part = crate::callers::callers_parts(symbol);
    lemma_some_line(text);
    let own = part(repos[i], store, false);
    crate::lines::lemma_holds_itself(Seq::empty(), own, Seq::empty());
    lemma_marked(repos, part, i, store, text, k);
    assert(tells(
        crate::callers::callers_global(repos, symbol, None),
        repos[i],
        lines(text)[k],
        gathered(repos, None, part),
    ));
}

proof fn lemma_some_line(text: Seq<char>)
    ensures
        lines(text).len() > 0 ==> text.len() > 0,
{
    if text.len() == 0 {
        assert(text =~= Seq::<char>::empty());
        reveal_with_fuel(crate::split::split, 3);
    }
}

/// A repository that is asked by name for what a file affects gives that of its index, with the notes on it.
pub proof fn law_blast_in_a_named_repository(
    repos: Seq<Repo>,
    i: int,
    store: Store,
    file: Seq<char>,
    mode: AnalysisMode,
)
    requires
        is_open(repos, i, store),
        arg_ok(file),
    ensures
        crate::blast::blast_global(repos, file, Some(repos[i].name@), mode) == scalar(
            crate::notes::read_notes(
                store,
                crate::blast::blast_text(store, file, mode),
                checkout(repos[i]),
            ),
        ),
{
    crate::global_laws::law_named_repository_answers_alone(
        repos,
        crate::blast::blast_parts(file, mode),
        i,
        store,
    );
}

/// Over several repositories every line that one of them gives of what a file affects is told, after the name of the repository.
pub proof fn law_blast_in_every_repository(
    repos: Seq<Repo>,
    i: int,
    store: Store,
    file: Seq<char>,
    mode: AnalysisMode,
    k: int,
)
    requires
        is_open(repos, i, store),
        repos.filter(|r: Repo| r.live).len() > 1,
        arg_ok(file),
        0 <= k < lines(
            crate::notes::read_notes(
                store,
                crate::blast::blast_text(store, file, mode),
                checkout(repos[i]),
            ),
        ).len(),
    ensures
        exists|t: Seq<char>| #[trigger]
            tells(
                crate::blast::blast_global(repos, file, None, mode),
                repos[i],
                lines(
                    crate::notes::read_notes(
                        store,
                        crate::blast::blast_text(store, file, mode),
                        checkout(repos[i]),
                    ),
                )[k],
                t,
            ),
{
    let text = crate::notes::read_notes(
        store,
        crate::blast::blast_text(store, file, mode),
        checkout(repos[i]),
    );
    let part = crate::blast::blast_parts(file, mode);
    lemma_some_line(text);
    let own = part(repos[i], store, false);
    crate::lines::lemma_holds_itself(Seq::empty(), own, Seq::empty());
    lemma_marked(repos, part, i, store, text, k);
    assert(tells(
        crate::blast::blast_global(repos, file, None, mode),
        repos[i],
        lines(text)[k],
        gathered(repos, None, part),
    ));
}

/// Over several repositories every import target that one of them gives is told, after the name of the repository.
pub proof fn law_imports_in_every_repository(
    repos: Seq<Repo>,
    i: int,
    store: Store,
    file: Seq<char>,
    k: int,
)
    requires
        is_open(repos, i, store),
        repos.filter(|r: Repo| r.live).len() > 1,
        arg_ok(file),
        0 <= k < lines(crate::deps::direct_deps(store, file)).len(),
    ensures
        exists|t: Seq<char>| #[trigger]
            tells(
                crate::deps::dependencies_global(repos, file, None),
                repos[i],
                lines(crate::deps::direct_deps(store, file))[k],
                t,
            ),
{
    let text = crate::deps::direct_deps(store, file);
    let part = crate::deps::deps_parts(file);
    lemma_some_line(text);
    let own = crate::global::attributed(repos[i].name@, text, false);
    lemma_head_notes_keep(store, own, checkout(repos[i]));
    lemma_marked(repos, part, i, store, text, k);
    assert(tells(
        crate::deps::dependencies_global(repos, file, None),
        repos[i],
        lines(text)[k],
        gathered(repos, None, part),
    ));
}

/// A repository that is asked by name for import targets gives those of its index; where it has none, it may tell why.
pub proof fn law_imports_in_a_named_repository(repos: Seq<Repo>, i: int, store: Store, file: Seq<char>)
    requires
        is_open(repos, i, store),
        arg_ok(file),
    ensures
        ({
            let raw = crate::deps::direct_deps(store, file);
            let hint = crate::deps::arg_hint(store, file);
            let got = crate::deps::dependencies_global(repos, file, Some(repos[i].name@));
            &&& raw.len() > 0 ==> got == scalar(
                crate::notes::head_notes(store, raw, checkout(repos[i])),
            )
            &&& raw.len() == 0 && hint is Some ==> got == scalar(hint->0)
            &&& raw.len() == 0 && hint is None ==> got == scalar(raw)
        }),
{
    crate::global_laws::law_named_repository_answers_alone(
        repos,
        crate::deps::deps_parts(file),
        i,
        store,
    );
}

proof fn lemma_head_notes_keep(store: Store, text: Seq<char>, head: Option<Seq<char>>)
    ensures
        holds(crate::notes::head_notes(store, text, head), text),
{
    crate::lines::lemma_holds_itself(Seq::empty(), text, Seq::empty());
    if let Some(n) = crate::notes::head_note(store, head) {
        if text.len() == 0 {
            assert(n.subrange(0int, 0int + text.len()) =~= text);
        } else {
            crate::lines::lemma_holds_itself(Seq::empty(), text, "\n"@ + n);
            assert(text + ("\n"@ + n) =~= text + "\n"@ + n);
        }
    }
}

/// The answer, cut at 512,000 bytes, is made of a text that has the line after the name of the repository.
pub open spec fn tells_much(answer: Seq<char>, repo: Repo, l: Seq<char>, t: Seq<char>) -> bool {
    answer == crate::sanitize::envelope(crate::sanitize::body(t, 512_000)) && holds(
        t,
        "["@ + repo.name@ + "] "@ + l,
    )
}

/// Over several repositories every use of a symbol that one of them gives is told, after the name of the repository.
pub proof fn law_uses_in_every_repository(
    repos: Seq<Repo>,
    i: int,
    store: Store,
    symbol: Seq<char>,
    path: Option<&str>,
    k: int,
)
    requires
        is_open(repos, i, store),
        repos.filter(|r: Repo| r.live).len() > 1,
        arg_ok(symbol),
        path is Some ==> arg_ok(path->0@),
        0 <= k < lines(crate::refs::references(store, symbol, opt_view(path))).len(),
    ensures
        exists|t: Seq<char>| #[trigger]
            tells_much(
                crate::refs::references_global(repos, symbol, path, None),
                repos[i],
                lines(crate::refs::references(store, symbol, opt_view(path)))[k],
                t,
            ),
{
    let text = crate::refs::references(store, symbol, opt_view(path));
    let part = crate::refs::references_parts(symbol, opt_view(path));
    lemma_some_line(text);
    let own = crate::global::attributed(repos[i].name@, text, false);
    lemma_head_notes_keep(store, own, checkout(repos[i]));
    lemma_marked(repos, part, i, store, text, k);
    assert(tells_much(
        crate::refs::references_global(repos, symbol, path, None),
        repos[i],
        lines(text)[k],
        gathered(repos, None, part),
    ));
}

/// Over several repositories every line of a textual search that one of them gives is told, after the name of the repository.
pub proof fn law_matches_in_every_repository(
    repos: Seq<Repo>,
    i: int,
    store: Store,
    pattern: Seq<char>,
    scope: Option<&str>,
    fixed: bool,
    k: int,
)
    requires
        is_open(repos, i, store),
        repos.filter(|r: Repo| r.live).len() > 1,
        crate::sanitize::pattern_verdict(pattern) is Ok,
        scope is Some ==> arg_ok(scope->0@),
        0 <= k < lines(crate::pattern::pattern_answer(store, pattern, scope, fixed)).len(),
    ensures
        exists|t: Seq<char>| #[trigger]
            tells_much(
                crate::pattern::pattern_global(repos, pattern, scope, None, fixed),
                repos[i],
                lines(crate::pattern::pattern_answer(store, pattern, scope, fixed))[k],
                t,
            ),
{
    let text = crate::pattern::pattern_answer(store, pattern, scope, fixed);
    let part = crate::pattern::pattern_parts(pattern, scope, fixed);
    lemma_some_line(text);
    let own = part(repos[i], store, false);
    crate::lines::lemma_holds_itself(Seq::empty(), own, Seq::empty());
    lemma_marked(repos, part, i, store, text, k);
    assert(tells_much(
        crate::pattern::pattern_global(repos, pattern, scope, None, fixed),
        repos[i],
        lines(text)[k],
        gathered(repos, None, part),
    ));
}

/// What a repository adds to a path, a map, snippets and a context: its own answer where it is the only one, and else the
/// same after its name.
pub proof fn law_shares_of_a_repository(
    repo: Repo,
    store: Store,
    source: Seq<char>,
    sink: Seq<char>,
    denied: Seq<u64>,
    budget: nat,
    mode: crate::snippets::SnippetMode,
)
    ensures
        crate::exec_path::path_part(repo, store, true, source, sink, denied) == crate::notes::read_notes(
            store,
            crate::exec_path::chain(store, source, sink, denied, true),
            checkout(repo),
        ),
        crate::repo_map::map_part(repo, store, true) == crate::repo_map::repo_map(store, 0),
        crate::snippets::snippets_part(repo, store, true, source, budget, mode)
            == crate::snippets::snippets(store, source, budget, mode),
        crate::snippets::snippets(store, source, budget, mode).len() > 0
            ==> crate::snippets::snippets_part(repo, store, false, source, budget, mode) == "["@
            + repo.name@ + "]\n"@ + crate::snippets::snippets(store, source, budget, mode),
{
}

} // verus!
