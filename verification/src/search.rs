//! Looking symbols up by name.

use vstd::prelude::*;

use crate::callers::{describe, line_suffix_of};
use crate::global::{attribute, candidates, collect_global, Repo};
use crate::rank::{rank, Key, KeyView};
use crate::sanitize::{is_valid_arg, sanitize_for_mcp};
use crate::split::{lines_of, lower_of, trim_of, words_of};
use crate::store::{opt_view, Node, Store};
use crate::text::{cat2, cat3, join_strings, same};

verus! {

/// The most symbols that are listed.
pub const MAX_SEARCH_RESULTS: usize = 50;

// ---------------------------------------------------------------- language words

/// The language that a word, in small letters, names.
pub open spec fn lang_token(word: Seq<char>) -> Option<Seq<char>> {
    if word == "typescript"@ {
        Some("typescript"@)
    } else if word == "javascript"@ {
        Some("javascript"@)
    } else if word == "objective-c"@ {
        Some("objectivec"@)
    } else if word == "objectivec"@ {
        Some("objectivec"@)
    } else if word == "csharp"@ {
        Some("csharp"@)
    } else if word == "golang"@ {
        Some("go"@)
    } else if word == "kotlin"@ {
        Some("kotlin"@)
    } else if word == "python"@ {
        Some("python"@)
    } else if word == "scala"@ {
        Some("scala"@)
    } else if word == "swift"@ {
        Some("swift"@)
    } else if word == "objc"@ {
        Some("objectivec"@)
    } else if word == "dart"@ {
        Some("dart"@)
    } else if word == "java"@ {
        Some("java"@)
    } else if word == "ruby"@ {
        Some("ruby"@)
    } else if word == "rust"@ {
        Some("rust"@)
    } else if word == "cpp"@ {
        Some("cpp"@)
    } else if word == "php"@ {
        Some("php"@)
    } else if word == "c++"@ {
        Some("cpp"@)
    } else if word == "c#"@ {
        Some("csharp"@)
    } else if word == "go"@ {
        Some("go"@)
    } else if word == "c"@ {
        Some("c"@)
    } else {
        None
    }
}

fn lang_token_of(word: &str) -> (r: Option<&'static str>)
    ensures
        r is Some == lang_token(word@) is Some,
        r matches Some(l) ==> lang_token(word@) == Some(l@),
{
    if same(word, "typescript") {
        Some("typescript")
    } else if same(word, "javascript") {
        Some("javascript")
    } else if same(word, "objective-c") {
        Some("objectivec")
    } else if same(word, "objectivec") {
        Some("objectivec")
    } else if same(word, "csharp") {
        Some("csharp")
    } else if same(word, "golang") {
        Some("go")
    } else if same(word, "kotlin") {
        Some("kotlin")
    } else if same(word, "python") {
        Some("python")
    } else if same(word, "scala") {
        Some("scala")
    } else if same(word, "swift") {
        Some("swift")
    } else if same(word, "objc") {
        Some("objectivec")
    } else if same(word, "dart") {
        Some("dart")
    } else if same(word, "java") {
        Some("java")
    } else if same(word, "ruby") {
        Some("ruby")
    } else if same(word, "rust") {
        Some("rust")
    } else if same(word, "cpp") {
        Some("cpp")
    } else if same(word, "php") {
        Some("php")
    } else if same(word, "c++") {
        Some("cpp")
    } else if same(word, "c#") {
        Some("csharp")
    } else if same(word, "go") {
        Some("go")
    } else if same(word, "c") {
        Some("c")
    } else {
        None
    }
}

/// The place of the first word that names a language, in whatever case.
pub open spec fn first_lang(ws: Seq<Seq<char>>) -> Option<int>
    decreases ws.len(),
{
    if ws.len() == 0 {
        None
    } else if first_lang(ws.drop_last()) is Some {
        first_lang(ws.drop_last())
    } else if lang_token(crate::split::lower(ws.last())) is Some {
        Some(ws.len() - 1)
    } else {
        None
    }
}

pub proof fn lemma_first_lang(ws: Seq<Seq<char>>)
    ensures
        first_lang(ws) matches Some(i) ==> 0 <= i < ws.len() && lang_token(
            crate::split::lower(ws[i]),
        ) is Some,
        first_lang(ws) is None ==> forall|i: int|
            0 <= i < ws.len() ==> lang_token(crate::split::lower(#[trigger] ws[i])) is None,
    decreases ws.len(),
{
    if ws.len() > 0 {
        lemma_first_lang(ws.drop_last());
        if first_lang(ws) is None {
            assert forall|i: int| 0 <= i < ws.len() implies lang_token(
                crate::split::lower(#[trigger] ws[i]),
            ) is None by {
                if i < ws.len() - 1 {
                    assert(ws.drop_last()[i] == ws[i]);
                }
            }
        }
    }
}

/// Where the language word starts, an `in` before it counted in.
pub open spec fn strip_from(ws: Seq<Seq<char>>, i: int) -> int {
    if i > 0 && crate::split::lower(ws[i - 1]) == "in"@ {
        i - 1
    } else {
        i
    }
}

/// A query without its language word.
pub open spec fn stripped(ws: Seq<Seq<char>>, i: int) -> Seq<char> {
    crate::text::join(ws.take(strip_from(ws, i)) + ws.skip(i + 1), " "@)
}

/// A query as what to search for and in which language. The query stays whole where it names no
/// language, or nothing else.
pub open spec fn inferred(query: Seq<char>) -> (Seq<char>, Option<Seq<char>>) {
    let ws = crate::split::words(query);
    match first_lang(ws) {
        Some(i) => (
            if crate::split::trim(stripped(ws, i)).len() == 0 {
                query
            } else {
                stripped(ws, i)
            },
            lang_token(crate::split::lower(ws[i])),
        ),
        None => (query, None),
    }
}

pub open spec fn lang_view(l: Option<&'static str>) -> Option<Seq<char>> {
    match l {
        Some(s) => Some(s@),
        None => None,
    }
}

/// Takes a language word, and an `in` before it, out of a query.
pub fn infer_language_from_query(query: &str) -> (r: (String, Option<&'static str>))
    ensures
        (r.0@, lang_view(r.1)) == inferred(query@),
{
    let ws = words_of(query);
    let ghost wv = crate::text::views(ws@);
    let n: usize = ws.len();
    assert(wv.len() == n);
    let mut i: usize = 0;
    while i < ws.len()
        invariant
            wv == crate::text::views(ws@),
            wv == crate::split::words(query@),
            n == ws@.len(),
            i <= n,
            first_lang(wv.take(i as int)) is None,
        decreases ws@.len() - i,
    {
        assert(wv.take(i + 1).drop_last() =~= wv.take(i as int));
        assert(wv.take(i + 1).last() == ws@[i as int]@);
        let lower = lower_of(ws[i].as_str());
        if let Some(l) = lang_token_of(lower.as_str()) {
            proof {
                lemma_first_lang_take(wv, i + 1);
            }
            let mut from: usize = i;
            if i > 0 {
                assert(wv[i - 1] == ws@[i - 1]@);
                let prev = lower_of(ws[i - 1].as_str());
                if same(prev.as_str(), "in") {
                    from = i - 1;
                }
            }
            let mut rest: Vec<String> = Vec::new();
            let mut k: usize = 0;
            while k < from
                invariant
                    wv == crate::text::views(ws@),
                    from <= i < n,
                    n == ws@.len(),
                    k <= from,
                    crate::text::views(rest@) == wv.take(k as int),
                decreases from - k,
            {
                proof {
                    crate::text::lemma_views_push(rest@, ws@[k as int]);
                    assert(wv.take(k + 1) =~= wv.take(k as int).push(wv[k as int]));
                }
                rest.push(ws[k].clone());
                k += 1;
            }
            let mut m: usize = i + 1;
            assert(wv.take(from as int) + wv.skip(i + 1).take(0) =~= wv.take(from as int));
            while m < n
                invariant
                    wv == crate::text::views(ws@),
                    from <= i < m <= n,
                    n == ws@.len(),
                    crate::text::views(rest@) == wv.take(from as int) + wv.skip(i + 1).take(
                        m - i - 1,
                    ),
                decreases n - m,
            {
                proof {
                    crate::text::lemma_views_push(rest@, ws@[m as int]);
                    assert((wv.take(from as int) + wv.skip(i + 1).take(m - i - 1)).push(
                        wv[m as int],
                    ) =~= wv.take(from as int) + wv.skip(i + 1).take(m - i));
                }
                rest.push(ws[m].clone());
                m += 1;
            }
            assert(wv.skip(i + 1).take(m - i - 1) =~= wv.skip(i + 1));
            let text = join_strings(&rest, " ");
            let bare = trim_of(text.as_str());
            if bare.as_str().is_empty() {
                return (query.to_owned(), Some(l));
            }
            return (text, Some(l));
        }
        i += 1;
    }
    assert(wv.take(i as int) =~= wv);
    (query.to_owned(), None)
}

proof fn lemma_first_lang_take(ws: Seq<Seq<char>>, i: int)
    requires
        0 <= i <= ws.len(),
        first_lang(ws.take(i)) is Some,
    ensures
        first_lang(ws) == first_lang(ws.take(i)),
    decreases ws.len(),
{
    if i < ws.len() {
        assert(ws.drop_last().take(i) =~= ws.take(i));
        lemma_first_lang_take(ws.drop_last(), i);
    } else {
        assert(ws.take(i) =~= ws);
    }
}

// ---------------------------------------------------------------- the search

/// The hits in the wanted language, or in any where that one has none.
pub open spec fn found(store: Store, name: Seq<char>, lang: Option<Seq<char>>, exact: bool) -> Seq<
    Node,
> {
    match store.fuzzy_hits(name, lang, exact) {
        Some(v) => if v.len() == 0 && lang is Some {
            match store.fuzzy_hits(name, None, exact) {
                Some(w) => w,
                None => v,
            }
        } else {
            v
        },
        None => Seq::empty(),
    }
}

/// The line of each listed hit.
pub open spec fn hit_lines(nodes: Seq<Node>) -> Seq<Seq<char>> {
    let n = if nodes.len() > MAX_SEARCH_RESULTS {
        MAX_SEARCH_RESULTS as nat
    } else {
        nodes.len()
    };
    Seq::new(
        n,
        |i: int|
            crate::callers::place_of(nodes[i]) + crate::callers::line_suffix(nodes[i].line),
    )
}

/// The symbols that match, one per line.
pub open spec fn matches(store: Store, name: Seq<char>, lang: Option<Seq<char>>, exact: bool) -> Seq<
    char,
> {
    crate::text::join(hit_lines(found(store, name, lang, exact)), "\n"@)
}

fn find(store: &Store, name: &str, lang: Option<&str>, exact: bool) -> (r: Vec<Node>)
    ensures
        r@ == found(*store, name@, opt_view(lang), exact),
{
    match store.search_nodes_fuzzy(name, lang, exact) {
        Some(v) => if v.len() == 0 && lang.is_some() {
            match store.search_nodes_fuzzy(name, None, exact) {
                Some(w) => w,
                None => v,
            }
        } else {
            v
        },
        None => Vec::new(),
    }
}

/// The symbols that match a name, of the wanted language where it has any.
pub fn search_symbol_raw(store: &Store, name: &str, lang: Option<&str>, exact: bool) -> (r: String)
    ensures
        r@ == matches(*store, name@, opt_view(lang), exact),
{
    let nodes = find(store, name, lang, exact);
    let shown: usize = if nodes.len() > MAX_SEARCH_RESULTS {
        MAX_SEARCH_RESULTS
    } else {
        nodes.len()
    };
    let ghost want = hit_lines(nodes@);
    let mut lines: Vec<String> = Vec::new();
    let mut i: usize = 0;
    while i < shown
        invariant
            i <= shown <= nodes@.len(),
            want == hit_lines(nodes@),
            want.len() == shown,
            lines@.len() == i,
            forall|j: int| 0 <= j < i ==> #[trigger] lines@[j]@ == want[j],
        decreases shown - i,
    {
        let place = describe(&nodes[i]);
        let loc = line_suffix_of(nodes[i].line);
        lines.push(cat2(place.as_str(), loc.as_str()));
        i += 1;
    }
    assert(crate::text::views(lines@) =~= want);
    join_strings(&lines, "\n")
}

/// The answer where nothing matched.
pub open spec fn no_match(name: Seq<char>) -> Seq<char> {
    "No symbols matching '"@ + name + "' found in the graph."@
}

/// An answer, never empty.
pub open spec fn or_no_match(raw: Seq<char>, name: Seq<char>) -> Seq<char> {
    crate::sanitize::scalar(
        if raw.len() == 0 {
            no_match(name)
        } else {
            raw
        },
    )
}

fn answer(raw: String, name: &str) -> (r: String)
    ensures
        r@ == or_no_match(raw@, name@),
{
    if raw.as_str().is_empty() {
        let s = cat3("No symbols matching '", name, "' found in the graph.");
        sanitize_for_mcp(s.as_str())
    } else {
        sanitize_for_mcp(raw.as_str())
    }
}

/// The definitions that match a name; a language word in the query narrows the search.
pub fn search_symbol(store: &Store, name: &str, exact: bool) -> (r: String)
    ensures
        r@ == (if crate::sanitize::arg_ok(name@) {
            or_no_match(matches(*store, inferred(name@).0, inferred(name@).1, exact), name@)
        } else {
            Seq::empty()
        }),
{
    if !is_valid_arg(name) {
        return String::new();
    }
    let (term, lang) = infer_language_from_query(name);
    let raw = search_symbol_raw(store, term.as_str(), lang, exact);
    answer(raw, name)
}

// ---------------------------------------------------------------- over several repositories

/// The matches of one repository in an answer over several.
pub open spec fn search_part(
    repo: Repo,
    store: Store,
    single: bool,
    term: Seq<char>,
    lang: Option<Seq<char>>,
    exact: bool,
) -> Seq<char> {
    crate::global::attributed(repo.name@, matches(store, term, lang, exact), single)
}

/// How many lines of matches each of the repositories gives, and which.
pub open spec fn fan_out(
    repos: Seq<Repo>,
    places: Seq<int>,
    n: int,
    term: Seq<char>,
    lang: Option<Seq<char>>,
    exact: bool,
) -> Seq<(nat, Seq<char>)>
    decreases n,
{
    if n <= 0 {
        Seq::empty()
    } else {
        let rest = fan_out(repos, places, n - 1, term, lang, exact);
        match repos[places[n - 1]].store {
            Some(store) => {
                let own = matches(store, term, lang, exact);
                if own.len() == 0 {
                    rest
                } else {
                    rest.push(
                        (
                            crate::split::lines(own).len(),
                            crate::global::attributed(
                                repos[places[n - 1]].name@,
                                own,
                                places.len() == 1,
                            ),
                        ),
                    )
                }
            },
            None => rest,
        }
    }
}

/// What the parts are ranked by: the number of their lines.
pub open spec fn line_keys(parts: Seq<(nat, Seq<char>)>) -> Seq<KeyView> {
    Seq::new(
        parts.len(),
        |i: int| (KeyView { first: parts[i].0, second: 0, name: Seq::empty() }),
    )
}

/// The parts, those with the most matches first.
pub open spec fn most_first(parts: Seq<(nat, Seq<char>)>, sep: Seq<char>) -> Seq<char> {
    let p = crate::rank::order_of(line_keys(parts));
    crate::text::join(Seq::new(p.len(), |i: int| parts[p[i]].1), sep)
}

/// The answer over the registered repositories.
pub open spec fn search_global(
    repos: Seq<Repo>,
    name: Seq<char>,
    repo: Option<Seq<char>>,
    exact: bool,
) -> Seq<char> {
    let (term, lang) = inferred(name);
    if !crate::sanitize::arg_ok(name) {
        Seq::empty()
    } else if repo is Some {
        or_no_match(
            crate::global::gathered(
                repos,
                repo,
                |r: Repo, s: Store, single: bool| search_part(r, s, single, term, lang, exact),
            ),
            name,
        )
    } else {
        let places = crate::global::addressed(repos, None);
        or_no_match(
            most_first(fan_out(repos, places, places.len() as int, term, lang, exact), "\n"@),
            name,
        )
    }
}

pub(crate) fn ranked_parts(counts: &Vec<usize>, texts: &Vec<String>, sep: &str, Ghost(parts): Ghost<
    Seq<(nat, Seq<char>)>,
>) -> (r: String)
    requires
        counts@.len() == parts.len(),
        texts@.len() == parts.len(),
        forall|i: int|
            0 <= i < parts.len() ==> (#[trigger] parts[i]).0 == counts@[i] && parts[i].1
                == texts@[i]@,
    ensures
        r@ == most_first(parts, sep@),
{
    let mut keys: Vec<Key> = Vec::new();
    let mut i: usize = 0;
    while i < counts.len()
        invariant
            i <= counts@.len(),
            counts@.len() == parts.len(),
            forall|i: int| 0 <= i < parts.len() ==> (#[trigger] parts[i]).0 == counts@[i],
            keys@.len() == i,
            forall|j: int| 0 <= j < i ==> #[trigger] keys@[j]@ == line_keys(parts)[j],
        decreases counts@.len() - i,
    {
        let k = Key { first: counts[i], second: 0, name: String::new() };
        assert(k.name@ =~= Seq::<char>::empty());
        assert(parts[i as int].0 == counts@[i as int]);
        keys.push(k);
        i += 1;
    }
    assert(crate::rank::key_views(keys@) =~= line_keys(parts));
    let order = rank(&keys);
    let ghost p = crate::rank::order_of(line_keys(parts));
    let mut out: Vec<String> = Vec::new();
    let mut k: usize = 0;
    while k < order.len()
        invariant
            k <= order@.len(),
            p == crate::rank::ints(order@),
            order@.len() == parts.len(),
            texts@.len() == parts.len(),
            forall|j: int| 0 <= j < order@.len() ==> #[trigger] order@[j] < texts@.len(),
            forall|i: int| 0 <= i < parts.len() ==> (#[trigger] parts[i]).1 == texts@[i]@,
            out@.len() == k,
            forall|j: int| 0 <= j < k ==> #[trigger] out@[j]@ == parts[p[j]].1,
        decreases order@.len() - k,
    {
        assert(p[k as int] == order@[k as int]);
        assert(parts[order@[k as int] as int].1 == texts@[order@[k as int] as int]@);
        out.push(texts[order[k]].clone());
        k += 1;
    }
    assert(crate::text::views(out@) =~= Seq::new(p.len(), |i: int| parts[p[i]].1));
    join_strings(&out, sep)
}

fn fan_out_of(
    repos: &Vec<Repo>,
    term: &str,
    lang: Option<&str>,
    exact: bool,
) -> (r: String)
    ensures
        r@ == most_first(
            fan_out(
                repos@,
                crate::global::addressed(repos@, None),
                crate::global::addressed(repos@, None).len() as int,
                term@,
                opt_view(lang),
                exact,
            ),
            "\n"@,
        ),
{
    let picks = candidates(repos, None);
    let ghost places = crate::global::addressed(repos@, None);
    assert(places.len() == picks@.len());
    let single = picks.len() == 1;
    let mut counts: Vec<usize> = Vec::new();
    let mut texts: Vec<String> = Vec::new();
    let mut k: usize = 0;
    while k < picks.len()
        invariant
            k <= picks@.len(),
            places == crate::rank::ints(picks@),
            places.len() == picks@.len(),
            single == (places.len() == 1),
            forall|j: int| 0 <= j < picks@.len() ==> #[trigger] picks@[j] < repos@.len(),
            counts@.len() == fan_out(repos@, places, k as int, term@, opt_view(lang), exact).len(),
            texts@.len() == counts@.len(),
            forall|i: int|
                0 <= i < counts@.len() ==> (#[trigger] fan_out(
                    repos@,
                    places,
                    k as int,
                    term@,
                    opt_view(lang),
                    exact,
                )[i]).0 == counts@[i] && fan_out(
                    repos@,
                    places,
                    k as int,
                    term@,
                    opt_view(lang),
                    exact,
                )[i].1 == texts@[i]@,
        decreases picks@.len() - k,
    {
        let repo = &repos[picks[k]];
        assert(places[k as int] == picks@[k as int]);
        let ghost was = fan_out(repos@, places, k as int, term@, opt_view(lang), exact);
        let ghost now = fan_out(repos@, places, k + 1, term@, opt_view(lang), exact);
        if let Some(store) = &repo.store {
            let own = search_symbol_raw(store, term, lang, exact);
            if !own.as_str().is_empty() {
                let ls = lines_of(own.as_str());
                assert(crate::text::views(ls@).len() == ls@.len());
                let count: usize = ls.len();
                let text = attribute(repo.name.as_str(), own, single);
                assert(now =~= was.push((count as nat, text@)));
                counts.push(count);
                texts.push(text);
            }
        }
        k += 1;
        assert forall|i: int| 0 <= i < counts@.len() implies (#[trigger] now[i]).0 == counts@[i]
            && now[i].1 == texts@[i]@ by {
            if i < was.len() {
                assert(now[i] == was[i]);
            }
        }
    }
    ranked_parts(
        &counts,
        &texts,
        "\n",
        Ghost(fan_out(repos@, places, places.len() as int, term@, opt_view(lang), exact)),
    )
}

/// The definitions that match a name in one named repository, or in all, the repository with the
/// most matches first.
pub fn search_symbol_global(repos: &Vec<Repo>, name: &str, repo: Option<&str>, exact: bool) -> (r:
    String)
    ensures
        r@ == search_global(repos@, name@, opt_view(repo), exact),
{
    if !is_valid_arg(name) {
        return String::new();
    }
    let (term, lang) = infer_language_from_query(name);
    let raw = if repo.is_some() {
        let f = |x: &Repo, s: &Store, single: bool| -> (o: String)
            ensures
                o@ == search_part(*x, *s, single, term@, lang_view(lang), exact),
            {
                let own = search_symbol_raw(s, term.as_str(), lang, exact);
                attribute(x.name.as_str(), own, single)
            };
        collect_global(
            repos,
            repo,
            f,
            Ghost(
                |r: Repo, s: Store, single: bool|
                    search_part(r, s, single, term@, lang_view(lang), exact),
            ),
        )
    } else {
        fan_out_of(repos, term.as_str(), lang, exact)
    };
    answer(raw, name)
}

// ---------------------------------------------------------------- laws

/// A query without a language word is searched for as it stands, in every language.
pub proof fn law_query_without_language_stays_whole(query: Seq<char>)
    requires
        forall|i: int|
            0 <= i < crate::split::words(query).len() ==> lang_token(
                crate::split::lower(#[trigger] crate::split::words(query)[i]),
            ) is None,
    ensures
        inferred(query) == (query, None::<Seq<char>>),
{
    lemma_first_lang(crate::split::words(query));
}

} // verus!
