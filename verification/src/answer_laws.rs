//! What the answers of the tools are made of.

use vstd::prelude::*;

use crate::lines::holds;
use crate::sanitize::{arg_ok, is_plain};
use crate::store::Store;

verus! {

// ---------------------------------------------------------------- arguments

/// An argument is valid where it is not empty, has at most 4096 bytes, and holds neither NUL nor a percent sign, neither starts with a
/// slash nor steps to a parent directory.
pub proof fn law_valid_arguments(arg: Seq<char>)
    ensures
        arg_ok(arg) <==> {
            &&& arg.len() > 0
            &&& vstd::utf8::encode_utf8(arg).len() <= 4096
            &&& !arg.contains('\0')
            &&& !arg.contains('%')
            &&& arg[0] != '/'
            &&& forall|i: int|
                0 <= i && i + 3 <= arg.len() ==> !(#[trigger] arg[i] == '.' && arg[i + 1] == '.' && arg[i
                    + 2] == '/')
        },
{
    reveal_strlit("/");
    reveal_strlit("../");
    crate::text::lemma_contains(arg, "../"@);
    if arg.len() > 0 {
        if arg[0] == '/' {
            assert(arg.subrange(0, 1) =~= "/"@);
            assert(crate::text::matches_at(arg, "/"@, 0));
        }
        if crate::text::starts_with(arg, "/"@) {
            assert(arg.subrange(0, 0 + "/"@.len() as int)[0] == '/');
        }
    }
    if exists|j: int| crate::text::matches_at(arg, "../"@, j) {
        let j = choose|j: int| crate::text::matches_at(arg, "../"@, j);
        let s = arg.subrange(j, j + 3);
        assert(s == "../"@);
        assert(s[0] == arg[j] && s[1] == arg[j + 1] && s[2] == arg[j + 2]);
    }
    if exists|i: int|
        0 <= i && i + 3 <= arg.len() && #[trigger] arg[i] == '.' && arg[i + 1] == '.' && arg[i + 2] == '/' {
        let i = choose|i: int|
            0 <= i && i + 3 <= arg.len() && #[trigger] arg[i] == '.' && arg[i + 1] == '.' && arg[i + 2]
                == '/';
        assert(arg.subrange(i, i + 3) =~= "../"@);
        assert(crate::text::matches_at(arg, "../"@, i));
    }
}

// ---------------------------------------------------------------- answers

proof fn lemma_prefix_holds(t: Seq<char>, p: Seq<char>, x: Seq<char>)
    requires
        p.is_prefix_of(t),
        holds(p, x),
    ensures
        holds(t, x),
{
    let rest = t.skip(p.len() as int);
    assert(p + rest =~= t) by {
        assert(t.subrange(0, p.len() as int) =~= p);
    }
    crate::lines::lemma_holds_around(Seq::empty(), p, rest, x);
}

proof fn lemma_noted(store: Store, raw: Seq<char>, head: Option<Seq<char>>)
    requires
        is_plain(raw),
        crate::width::blen(raw) <= 4096,
    ensures
        holds(crate::notes::read_notes(store, crate::sanitize::scalar(raw), head), raw),
        holds(crate::notes::head_notes(store, crate::sanitize::scalar(raw), head), raw),
{
    let s = crate::sanitize::scalar(raw);
    crate::sanitize::law_plain_answer_is_whole(raw);
    crate::notes::law_notes_keep_the_body(store, s, head);
    lemma_prefix_holds(crate::notes::read_notes(store, s, head), s, raw);
    lemma_prefix_holds(crate::notes::head_notes(store, s, head), s, raw);
}

/// The answer to a valid request for callers holds all their lines, as long as the text is plain and fits; while the semantic pass is
/// owed it says so; an invalid request has none.
pub proof fn law_callers_are_answered(store: Store, symbol: Seq<char>, head: Option<Seq<char>>)
    ensures
        ({
            let raw = crate::callers::callers(store, symbol);
            let t = crate::callers::callers_answer(store, symbol, head);
            let pending = store.meta_value("phase_b_commit"@) is None && store.meta_value(
                "last_commit"@,
            ) is Some;
            &&& !arg_ok(symbol) ==> t.len() == 0
            &&& arg_ok(symbol) && pending ==> holds(t, "\"status\":\"pending\""@)
            &&& arg_ok(symbol) && !pending && is_plain(raw) && crate::width::blen(raw) <= 4096 ==> holds(
                t,
                raw,
            )
        }),
{
    let raw = crate::callers::callers(store, symbol);
    if is_plain(raw) && crate::width::blen(raw) <= 4096 {
        lemma_noted(store, raw, head);
    }
    reveal_strlit(
        "{\"status\":\"pending\",\"message\":\"Semantic call-edge index is building in the background. Call edges will be available in ~2 minutes. Run `travsr status` to check progress.\"}",
    );
    reveal_strlit("\"status\":\"pending\"");
    let p = crate::callers::callers_pending();
    let n = "\"status\":\"pending\""@.len() as int;
    assert(n == 18);
    assert(p.subrange(1, 1 + n) =~= "\"status\":\"pending\""@);
}

/// The answer to a valid request for the affected files holds all of them, as long as the text is plain and fits.
pub proof fn law_affected_files_are_answered(
    store: Store,
    file: Seq<char>,
    mode: crate::blast::AnalysisMode,
    head: Option<Seq<char>>,
)
    ensures
        ({
            let raw = crate::blast::blast_text(store, file, mode);
            let t = crate::blast::blast_answer(store, file, mode, head);
            &&& !arg_ok(file) ==> t.len() == 0
            &&& arg_ok(file) && is_plain(raw) && crate::width::blen(raw) <= 4096 ==> holds(t, raw)
        }),
{
    let raw = crate::blast::blast_text(store, file, mode);
    if is_plain(raw) && crate::width::blen(raw) <= 4096 {
        lemma_noted(store, raw, head);
    }
}

/// The answer to a valid request for dependencies holds the direct ones, or those up to the depth where those are asked for; one
/// without any tells what the argument should have been.
pub proof fn law_dependencies_are_answered(
    store: Store,
    file: Seq<char>,
    transitive: bool,
    depth: nat,
    head: Option<Seq<char>>,
)
    ensures
        ({
            let raw = if transitive {
                crate::deps::transitive_deps(store, file, depth)
            } else {
                crate::deps::direct_deps(store, file)
            };
            let t = crate::deps::dependencies(store, file, transitive, depth, head);
            &&& !arg_ok(file) ==> t.len() == 0
            &&& arg_ok(file) && raw.len() > 0 && is_plain(raw) && crate::width::blen(raw) <= 4096 ==> holds(
                t,
                raw,
            )
            &&& arg_ok(file) && raw.len() == 0 ==> (crate::deps::arg_hint(store, file) matches Some(h)
                ==> is_plain(h) && crate::width::blen(h) <= 4096 ==> holds(t, h))
        }),
{
    let raw = if transitive {
        crate::deps::transitive_deps(store, file, depth)
    } else {
        crate::deps::direct_deps(store, file)
    };
    if is_plain(raw) && crate::width::blen(raw) <= 4096 {
        lemma_noted(store, raw, head);
    }
    if let Some(h) = crate::deps::arg_hint(store, file) {
        if is_plain(h) && crate::width::blen(h) <= 4096 {
            crate::sanitize::law_plain_answer_is_whole(h);
        }
    }
}

/// The answer to a valid request for references holds them, as long as the text is plain and fits 512,000 bytes.
pub proof fn law_references_are_answered(
    store: Store,
    symbol: Seq<char>,
    path: Option<&str>,
    head: Option<Seq<char>>,
)
    requires
        !(store.meta_value("phase_b_commit"@) is None && store.meta_value("last_commit"@) is Some),
        arg_ok(symbol),
        path matches Some(p) ==> arg_ok(p@),
        is_plain(crate::refs::references(store, symbol, crate::store::opt_view(path))),
        crate::width::blen(crate::refs::references(store, symbol, crate::store::opt_view(path)))
            <= 512_000,
    ensures
        holds(
            crate::refs::references_answer(store, symbol, path, head),
            crate::refs::references(store, symbol, crate::store::opt_view(path)),
        ),
{
    let raw = crate::refs::references(store, symbol, crate::store::opt_view(path));
    crate::sanitize::law_plain_text_is_kept(raw);
    let b = crate::sanitize::body(raw, crate::refs::FIND_OUTPUT_LIMIT as nat);
    assert(b == raw);
    crate::notes::law_notes_keep_the_body(store, b, head);
    crate::lines::lemma_holds_itself(Seq::empty(), raw, Seq::empty());
    let inner = crate::notes::head_notes(store, b, head);
    lemma_prefix_holds(inner, b, raw);
    crate::lines::lemma_holds_around("<travsr-data>"@, inner, "</travsr-data>"@, raw);
}

/// The answer to a valid request for a path holds it, as long as the text is plain and fits.
pub proof fn law_paths_are_answered(
    store: Store,
    source: Seq<char>,
    sink: Seq<char>,
    denied: Seq<u64>,
    head: Option<Seq<char>>,
)
    ensures
        ({
            let raw = crate::exec_path::chain(store, source, sink, denied, true);
            let t = crate::exec_path::filtered_answer(store, source, sink, denied, head);
            &&& !arg_ok(source) || !arg_ok(sink) ==> t.len() == 0
            &&& arg_ok(source) && arg_ok(sink) && is_plain(raw) && crate::width::blen(raw) <= 4096
                ==> holds(t, raw)
        }),
{
    let raw = crate::exec_path::chain(store, source, sink, denied, true);
    if is_plain(raw) && crate::width::blen(raw) <= 4096 {
        lemma_noted(store, raw, head);
    }
}

/// The answer to a search holds the matches, as long as they are plain and fit; without any it says so.
pub proof fn law_matches_are_told(raw: Seq<char>, name: Seq<char>)
    ensures
        raw.len() > 0 && is_plain(raw) && crate::width::blen(raw) <= 4096 ==> holds(
            crate::search::or_no_match(raw, name),
            raw,
        ),
        raw.len() == 0 && is_plain(crate::search::no_match(name)) && crate::width::blen(
            crate::search::no_match(name),
        ) <= 4096 ==> holds(
            crate::search::or_no_match(raw, name),
            "No symbols matching '"@ + name + "' found in the graph."@,
        ),
{
    if raw.len() > 0 && is_plain(raw) && crate::width::blen(raw) <= 4096 {
        crate::sanitize::law_plain_answer_is_whole(raw);
    }
    let n = crate::search::no_match(name);
    if is_plain(n) && crate::width::blen(n) <= 4096 {
        crate::sanitize::law_plain_answer_is_whole(n);
    }
}

// ---------------------------------------------------------------- the status of a language

/// The status of a language tells its name, and whether the semantic pass has found calls in it.
pub proof fn law_language_status_tells_what_is_known(store: Store, file: Seq<char>, m: crate::lang::LangView)
    requires
        crate::lang::lang_of(crate::lang::path_extension(file)) == Some(m),
    ensures
        holds(
            crate::lang::lang_status(store, file),
            "{\"language\":\""@ + m.language + "\",\"builtin\":"@ + (if m.builtin {
                "true"@
            } else {
                "false"@
            }) + ",\"semantic_available\":"@ + (if crate::text::views(
                store.call_languages@,
            ).contains(m.language) {
                "true"@
            } else {
                "false"@
            }),
        ),
{
    let available = crate::text::views(store.call_languages@).contains(m.language);
    let commit = store.meta_value("phase_b_commit"@);
    let a = "{\"language\":\""@ + m.language + "\",\"builtin\":"@ + crate::lang::bool_text(m.builtin)
        + ",\"semantic_available\":"@ + crate::lang::bool_text(available);
    let rest = ",\"install_hint\":\""@ + crate::lang::hint(m, available) + "\",\"phase_b_commit\":"@
        + crate::lang::commit_json(commit) + "}"@;
    assert(crate::lang::status_json(m, available, commit) =~= a + rest);
    crate::lines::lemma_holds_itself(Seq::empty(), a, rest);
}

/// The extension of a file is what follows the last dot of its name, the dot included.
pub proof fn law_extensions_follow_the_last_dot(stem: Seq<char>, ext: Seq<char>)
    requires
        stem.len() > 0,
        !ext.contains('.'),
    ensures
        crate::lang::dotted_extension(stem + "."@ + ext) == "."@ + ext,
{
    reveal_strlit(".");
    let name = stem + "."@ + ext;
    lemma_last_dot(stem, ext);
    assert(name.skip(stem.len() as int) =~= "."@ + ext);
}

pub(crate) proof fn lemma_last_dot(stem: Seq<char>, ext: Seq<char>)
    requires
        !ext.contains('.'),
    ensures
        crate::text::last_of(stem + "."@ + ext, '.', '.') == Some(stem.len() as int),
    decreases ext.len(),
{
    reveal_strlit(".");
    let name = stem + "."@ + ext;
    if ext.len() > 0 {
        let p = ext.drop_last();
        assert(name.drop_last() =~= stem + "."@ + p);
        assert(ext[ext.len() - 1] != '.');
        assert forall|i: int| 0 <= i < p.len() implies p[i] != '.' by {
            assert(ext[i] != '.');
        }
        lemma_last_dot(stem, p);
    }
}

// ---------------------------------------------------------------- scores and indents

/// The score of a node is a thousand thousandths at the start, and falls to seven tenths with every step, but for the rounding.
pub proof fn law_scores_fall_to_seven_tenths(hop: nat)
    ensures
        crate::graph_json::thousandths(0) == 1000,
        7 * crate::graph_json::thousandths(hop) - 9 < 10 * crate::graph_json::thousandths(hop + 1) < 7
            * crate::graph_json::thousandths(hop) + 9,
{
    reveal_with_fuel(crate::graph_json::power, 2);
    let a = crate::graph_json::power(7, hop) as int;
    let b = crate::graph_json::power(10, hop) as int;
    lemma_power_positive(hop);
    assert(crate::graph_json::power(7, 0) == 1 && crate::graph_json::power(10, 0) == 1);
    assert((2000 * crate::graph_json::power(7, 0) + crate::graph_json::power(10, 0)) / (2
        * crate::graph_json::power(10, 0)) == 1000) by (nonlinear_arith)
        requires
            crate::graph_json::power(7, 0) == 1,
            crate::graph_json::power(10, 0) == 1,
    ;
    assert(crate::graph_json::power(7, hop + 1) == 7 * a);
    assert(crate::graph_json::power(10, hop + 1) == 10 * b);
    let t = crate::graph_json::thousandths(hop) as int;
    let u = crate::graph_json::thousandths(hop + 1) as int;
    assert(t == (2000 * a + b) / (2 * b));
    assert(u == (2000 * (7 * a) + 10 * b) / (2 * (10 * b)));
    assert(2 * b * t <= 2000 * a + b < 2 * b * (t + 1)) by (nonlinear_arith)
        requires
            b > 0,
            t == (2000 * a + b) / (2 * b),
    ;
    assert(20 * b * u <= 14000 * a + 10 * b < 20 * b * (u + 1)) by (nonlinear_arith)
        requires
            b > 0,
            u == (2000 * (7 * a) + 10 * b) / (2 * (10 * b)),
    ;
    assert(10 * u < 7 * t + 9) by (nonlinear_arith)
        requires
            b > 0,
            20 * b * u <= 14000 * a + 10 * b,
            2000 * a + b < 2 * b * (t + 1),
    ;
    assert(7 * t - 9 < 10 * u) by (nonlinear_arith)
        requires
            b > 0,
            14000 * a + 10 * b < 20 * b * (u + 1),
            2 * b * t <= 2000 * a + b,
    ;
}

proof fn lemma_power_positive(n: nat)
    ensures
        crate::graph_json::power(10, n) > 0,
    decreases n,
{
    if n > 0 {
        lemma_power_positive((n - 1) as nat);
    }
}

/// A line is indented once for every step of its distance.
pub proof fn law_indents_add_up(s: Seq<char>, a: nat, b: nat)
    ensures
        crate::deps::repeated(s, a + b) == crate::deps::repeated(s, a) + crate::deps::repeated(s, b),
        crate::deps::repeated(s, 1) == s,
        crate::deps::repeated(s, 0).len() == 0,
    decreases b,
{
    reveal_with_fuel(crate::deps::repeated, 2);
    assert(Seq::<char>::empty() + s =~= s);
    if b == 0 {
        assert(crate::deps::repeated(s, a) + Seq::<char>::empty() =~= crate::deps::repeated(s, a));
    } else {
        law_indents_add_up(s, a, (b - 1) as nat);
        assert(crate::deps::repeated(s, a + b) =~= crate::deps::repeated(s, a) + crate::deps::repeated(
            s,
            b,
        ));
    }
}

/// The budget of a request for snippets is kept between one token and 32,000, and an answer may have eight bytes for each token.
pub proof fn law_budgets_are_kept_in_bounds(budget: nat)
    ensures
        1 <= budget <= 32_000 ==> crate::snippets::clamped(budget) == budget,
        budget < 1 ==> crate::snippets::clamped(budget) == 1,
        budget > 32_000 ==> crate::snippets::clamped(budget) == 32_000,
        budget <= 128_000 ==> crate::snippets::char_cap(budget) == 8 * budget,
        budget > 128_000 ==> crate::snippets::char_cap(budget) == 1_024_000,
{
}

/// What an answer spends on source is its own budget, or what the nodes leave of the other.
pub proof fn law_source_budget_is_what_is_left(ask: crate::context::Ask, v: Seq<crate::picks::Pick>)
    requires
        crate::picks::cost(v) <= usize::MAX,
    ensures
        ask.snippet_budget matches Some(b) ==> crate::context::source_ceiling(ask, v) == b,
        ask.snippet_budget is None && crate::picks::cost(v) <= ask.budget ==> crate::context::source_ceiling(
            ask,
            v,
        ) + crate::picks::cost(v) == ask.budget,
        ask.snippet_budget is None && crate::picks::cost(v) > ask.budget ==> crate::context::source_ceiling(
            ask,
            v,
        ) == 0,
{
}

} // verus!
