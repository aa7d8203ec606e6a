//! Call chains between two symbols.

use vstd::prelude::*;

use crate::callers::describe;
use crate::global::{attribute, collect_global, Repo};
use crate::notes::{append_read_notes, phase_b_pending};
use crate::sanitize::{is_valid_arg, sanitize_for_mcp};
use crate::store::{opt_view, Node, PathAnswer, Store};
use crate::text::{cat3, join_strings};

verus! {

/// The first node that is not denied.
pub open spec fn first_allowed(nodes: Seq<Node>, denied: Seq<u64>) -> Option<Node>
    decreases nodes.len(),
{
    if nodes.len() == 0 {
        None
    } else if first_allowed(nodes.drop_last(), denied) is Some {
        first_allowed(nodes.drop_last(), denied)
    } else if !denied.contains(nodes.last().id) {
        Some(nodes.last())
    } else {
        None
    }
}

fn is_denied(denied: &Vec<u64>, id: u64) -> (r: bool)
    ensures
        r == denied@.contains(id),
{
    let mut i: usize = 0;
    while i < denied.len()
        invariant
            i <= denied@.len(),
            forall|j: int| 0 <= j < i ==> denied@[j] != id,
        decreases denied@.len() - i,
    {
        if denied[i] == id {
            return true;
        }
        i += 1;
    }
    false
}

fn find_allowed(nodes: &Vec<Node>, denied: &Vec<u64>) -> (r: Option<Node>)
    ensures
        r == first_allowed(nodes@, denied@),
{
    let mut r: Option<Node> = None;
    let mut i: usize = 0;
    while i < nodes.len()
        invariant
            i <= nodes@.len(),
            r == first_allowed(nodes@.take(i as int), denied@),
        decreases nodes@.len() - i,
    {
        assert(nodes@.take(i + 1).drop_last() =~= nodes@.take(i as int));
        if r.is_none() && !is_denied(denied, nodes[i].id) {
            r = Some(nodes[i].clone());
        }
        i += 1;
    }
    assert(nodes@.take(i as int) =~= nodes@);
    r
}

/// The answer recorded for a pair; a pair that was not searched has no nodes.
pub open spec fn path_of(v: Seq<PathAnswer>, source: u64, sink: u64) -> Option<Seq<Node>>
    decreases v.len(),
{
    if v.len() == 0 {
        Some(Seq::empty())
    } else if v.last().source == source && v.last().sink == sink {
        match v.last().nodes {
            Some(n) => Some(n@),
            None => None,
        }
    } else {
        path_of(v.drop_last(), source, sink)
    }
}

fn find_path(store: &Store, source: u64, sink: u64) -> (r: Option<Vec<Node>>)
    ensures
        r is Some == path_of(store.path_answers@, source, sink) is Some,
        r matches Some(v) ==> path_of(store.path_answers@, source, sink) == Some(v@),
{
    let mut i: usize = store.path_answers.len();
    assert(store.path_answers@.take(i as int) =~= store.path_answers@);
    while i > 0
        invariant
            i <= store.path_answers@.len(),
            path_of(store.path_answers@, source, sink) == path_of(
                store.path_answers@.take(i as int),
                source,
                sink,
            ),
        decreases i,
    {
        let a = &store.path_answers[i - 1];
        if a.source == source && a.sink == sink {
            return match &a.nodes {
                Some(v) => Some(crate::store::copy_nodes(v)),
                None => None,
            };
        }
        i -= 1;
        assert(store.path_answers@.take(i + 1).drop_last() =~= store.path_answers@.take(i as int));
    }
    let r: Vec<Node> = Vec::new();
    assert(r@ =~= Seq::<Node>::empty());
    Some(r)
}

/// Some node has the id.
pub open spec fn reaches(nodes: Seq<Node>, id: u64) -> bool {
    exists|i: int| 0 <= i < nodes.len() && (#[trigger] nodes[i]).id == id
}

fn does_reach(nodes: &Vec<Node>, id: u64) -> (r: bool)
    ensures
        r == reaches(nodes@, id),
{
    let mut i: usize = 0;
    while i < nodes.len()
        invariant
            i <= nodes@.len(),
            forall|j: int| 0 <= j < i ==> (#[trigger] nodes@[j]).id != id,
        decreases nodes@.len() - i,
    {
        if nodes[i].id == id {
            return true;
        }
        i += 1;
    }
    false
}

/// One line per node of a path.
pub open spec fn path_lines(nodes: Seq<Node>) -> Seq<Seq<char>> {
    Seq::new(nodes.len(), |i: int| crate::callers::place_of(nodes[i]))
}

/// The answer where an end could not be resolved. It is the same for a name that does not exist
/// and for one that is denied.
pub open spec fn unresolved(source: Seq<char>, sink: Seq<char>) -> Seq<char> {
    "could not resolve source '"@ + source + "' and/or sink '"@ + sink
        + "', verify the names with search_symbol, or pass full signatures (e.g. fn:charge)."@
}

/// The answer where both ends are known and nothing connects them.
pub open spec fn disconnected(a: Node, b: Node) -> Seq<char> {
    "no path found: '"@ + a.signature@ + "' and '"@ + b.signature@
        + "' both resolved, but no connecting call chain was found within traversal limits."@
}

/// The call chain between two symbols; where there is none, why, if that is asked for.
pub open spec fn chain(
    store: Store,
    source: Seq<char>,
    sink: Seq<char>,
    denied: Seq<u64>,
    diagnose: bool,
) -> Seq<char> {
    match (store.name_hits(source), store.name_hits(sink)) {
        (Some(xs), Some(ys)) => match (first_allowed(xs, denied), first_allowed(ys, denied)) {
            (Some(a), Some(b)) => match path_of(store.path_answers@, a.id, b.id) {
                Some(nodes) => if reaches(nodes, b.id) {
                    crate::text::join(path_lines(nodes), "\n"@)
                } else if diagnose {
                    disconnected(a, b)
                } else {
                    Seq::empty()
                },
                None => Seq::empty(),
            },
            _ => if diagnose {
                unresolved(source, sink)
            } else {
                Seq::empty()
            },
        },
        _ => Seq::empty(),
    }
}

/// The call chain between two symbols. `diagnose` asks for the reason where there is none.
pub fn get_execution_path_body(
    store: &Store,
    source: &str,
    sink: &str,
    denied: &Vec<u64>,
    diagnose: bool,
) -> (r: String)
    ensures
        r@ == chain(*store, source@, sink@, denied@, diagnose),
{
    let xs: Vec<Node> = match store.search_nodes_by_name(source) {
        Some(v) => v,
        None => return String::new(),
    };
    let ys: Vec<Node> = match store.search_nodes_by_name(sink) {
        Some(v) => v,
        None => return String::new(),
    };
    match (find_allowed(&xs, denied), find_allowed(&ys, denied)) {
        (Some(a), Some(b)) => {
            let nodes: Vec<Node> = match find_path(store, a.id, b.id) {
                Some(v) => v,
                None => return String::new(),
            };
            if !does_reach(&nodes, b.id) {
                if diagnose {
                    let mut s = cat3("no path found: '", a.signature.as_str(), "' and '");
                    s.append(b.signature.as_str());
                    s.append(
                        "' both resolved, but no connecting call chain was found within traversal limits.",
                    );
                    return s;
                }
                return String::new();
            }
            let ghost want = path_lines(nodes@);
            let mut lines: Vec<String> = Vec::new();
            let mut i: usize = 0;
            while i < nodes.len()
                invariant
                    i <= nodes@.len(),
                    want == path_lines(nodes@),
                    lines@.len() == i,
                    forall|j: int| 0 <= j < i ==> #[trigger] lines@[j]@ == want[j],
                decreases nodes@.len() - i,
            {
                lines.push(describe(&nodes[i]));
                i += 1;
            }
            assert(crate::text::views(lines@) =~= want);
            join_strings(&lines, "\n")
        },
        _ => {
            if diagnose {
                let mut s = cat3("could not resolve source '", source, "' and/or sink '");
                s.append(sink);
                s.append(
                    "', verify the names with search_symbol, or pass full signatures (e.g. fn:charge).",
                );
                s
            } else {
                String::new()
            }
        },
    }
}

/// The answer to a request under an access filter.
pub open spec fn filtered_answer(
    store: Store,
    source: Seq<char>,
    sink: Seq<char>,
    denied: Seq<u64>,
    head: Option<Seq<char>>,
) -> Seq<char> {
    if crate::sanitize::arg_ok(source) && crate::sanitize::arg_ok(sink) {
        crate::notes::read_notes(
            store,
            crate::sanitize::scalar(chain(store, source, sink, denied, true)),
            head,
        )
    } else {
        Seq::empty()
    }
}

/// The call chain between two symbols, without the nodes that the caller may not see.
pub fn get_execution_path_with_filter(
    store: &Store,
    source: &str,
    sink: &str,
    denied: &Vec<u64>,
    head: Option<&str>,
) -> (r: String)
    ensures
        r@ == filtered_answer(*store, source@, sink@, denied@, opt_view(head)),
{
    if !is_valid_arg(source) || !is_valid_arg(sink) {
        return String::new();
    }
    let raw = get_execution_path_body(store, source, sink, denied, true);
    append_read_notes(store, sanitize_for_mcp(raw.as_str()), head)
}

/// The answer while the semantic pass is still owed.
pub open spec fn path_pending() -> Seq<char> {
    "{\"status\":\"pending\",\"message\":\"Semantic call-edge index is building in the background. Execution paths will be available in ~2 minutes. Run `travsr status` to check progress.\"}"@
}

/// The call chain from `source` to `sink`. `head` is the commit of the caller's checkout, where it is
/// known.
pub fn get_execution_path(store: &Store, source: &str, sink: &str, head: Option<&str>) -> (r:
    String)
    ensures
        r@ == (if crate::notes::is_phase_b_pending(*store) {
            path_pending()
        } else {
            filtered_answer(*store, source@, sink@, Seq::empty(), opt_view(head))
        }),
{
    if phase_b_pending(store) {
        return "{\"status\":\"pending\",\"message\":\"Semantic call-edge index is building in the background. Execution paths will be available in ~2 minutes. Run `travsr status` to check progress.\"}".to_owned();
    }
    let none: Vec<u64> = Vec::new();
    assert(none@ =~= Seq::<u64>::empty());
    get_execution_path_with_filter(store, source, sink, &none, head)
}

/// The part of one repository in an answer over several; reasons are given only where it is alone.
pub open spec fn path_part(
    repo: Repo,
    store: Store,
    single: bool,
    source: Seq<char>,
    sink: Seq<char>,
    denied: Seq<u64>,
) -> Seq<char> {
    crate::global::attributed(
        repo.name@,
        crate::notes::read_notes(
            store,
            chain(store, source, sink, denied, single),
            repo.head_view(),
        ),
        single,
    )
}

/// The call chain between two symbols in one named repository, or in all.
pub fn get_execution_path_global(
    repos: &Vec<Repo>,
    source: &str,
    sink: &str,
    repo: Option<&str>,
    denied: &Vec<u64>,
) -> (r: String)
    ensures
        r@ == (if crate::sanitize::arg_ok(source@) && crate::sanitize::arg_ok(sink@) {
            crate::sanitize::scalar(
                crate::global::gathered(
                    repos@,
                    opt_view(repo),
                    |x: Repo, s: Store, single: bool|
                        path_part(x, s, single, source@, sink@, denied@),
                ),
            )
        } else {
            Seq::empty()
        }),
{
    if !is_valid_arg(source) || !is_valid_arg(sink) {
        return String::new();
    }
    let f = |x: &Repo, s: &Store, single: bool| -> (o: String)
        ensures
            o@ == path_part(*x, *s, single, source@, sink@, denied@),
        {
            let raw = get_execution_path_body(s, source, sink, denied, single);
            attribute(x.name.as_str(), append_read_notes(s, raw, x.head_ref()), single)
        };
    let raw = collect_global(
        repos,
        repo,
        f,
        Ghost(
            |x: Repo, s: Store, single: bool| path_part(x, s, single, source@, sink@, denied@),
        ),
    );
    sanitize_for_mcp(raw.as_str())
}

// ---------------------------------------------------------------- laws

proof fn lemma_all_denied(nodes: Seq<Node>, denied: Seq<u64>)
    requires
        forall|i: int| 0 <= i < nodes.len() ==> denied.contains((#[trigger] nodes[i]).id),
    ensures
        first_allowed(nodes, denied) is None,
    decreases nodes.len(),
{
    if nodes.len() > 0 {
        assert forall|i: int| 0 <= i < nodes.drop_last().len() implies denied.contains(
            (#[trigger] nodes.drop_last()[i]).id,
        ) by {
            assert(nodes.drop_last()[i] == nodes[i]);
        }
        lemma_all_denied(nodes.drop_last(), denied);
        assert(nodes.last() == nodes[nodes.len() - 1]);
    }
}

/// A source that is denied is answered exactly as one that does not exist.
pub proof fn law_denied_source_reads_as_absent(
    seen: Store,
    absent: Store,
    source: Seq<char>,
    sink: Seq<char>,
    denied: Seq<u64>,
    diagnose: bool,
)
    requires
        seen.name_hits(source) matches Some(xs) && forall|i: int|
            0 <= i < xs.len() ==> denied.contains((#[trigger] xs[i]).id),
        absent.name_hits(source) == Some(Seq::<Node>::empty()),
        seen.name_hits(sink) is Some,
        absent.name_hits(sink) is Some,
    ensures
        chain(seen, source, sink, denied, diagnose) == chain(absent, source, sink, denied, diagnose),
{
    lemma_all_denied(seen.name_hits(source)->0, denied);
    lemma_all_denied(absent.name_hits(source)->0, denied);
}

/// A sink that is denied is answered exactly as one that does not exist.
pub proof fn law_denied_sink_reads_as_absent(
    seen: Store,
    absent: Store,
    source: Seq<char>,
    sink: Seq<char>,
    denied: Seq<u64>,
    diagnose: bool,
)
    requires
        seen.name_hits(sink) matches Some(ys) && forall|i: int|
            0 <= i < ys.len() ==> denied.contains((#[trigger] ys[i]).id),
        absent.name_hits(sink) == Some(Seq::<Node>::empty()),
        seen.name_hits(source) is Some,
        absent.name_hits(source) is Some,
    ensures
        chain(seen, source, sink, denied, diagnose) == chain(absent, source, sink, denied, diagnose),
{
    lemma_all_denied(seen.name_hits(sink)->0, denied);
    lemma_all_denied(absent.name_hits(sink)->0, denied);
}

/// A path that does not reach the sink is never relayed as a path.
pub proof fn law_only_connected_paths_are_relayed(
    store: Store,
    source: Seq<char>,
    sink: Seq<char>,
    denied: Seq<u64>,
)
    requires
        store.name_hits(source) is Some,
        store.name_hits(sink) is Some,
        first_allowed(store.name_hits(source)->0, denied) is Some,
        first_allowed(store.name_hits(sink)->0, denied) matches Some(b) && path_of(
            store.path_answers@,
            (first_allowed(store.name_hits(source)->0, denied)->0).id,
            b.id,
        ) matches Some(nodes) && !reaches(nodes, b.id),
    ensures
        chain(store, source, sink, denied, false) == Seq::<char>::empty(),
        chain(store, source, sink, denied, true) == disconnected(
            first_allowed(store.name_hits(source)->0, denied)->0,
            first_allowed(store.name_hits(sink)->0, denied)->0,
        ),
{
}

} // verus!
