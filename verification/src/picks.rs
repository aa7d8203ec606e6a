//! The nodes that an answer shows.

use vstd::prelude::*;

use crate::noise::is_context_result_noise;
use crate::rank::{rank, Key, KeyView};
use crate::retrieval::Ranked;
use crate::seeds::has_number;
use crate::store::{Node, Store};
use crate::text::{cat3, dec_usize, join_strings};

verus! {

/// The nodes that are kept whatever their score.
pub const MIN_KEEP: usize = 8;

/// The most nodes that are listed among those without room.
pub const OVERFLOW_DISPLAY_CAP: usize = 10;

/// A node with what is known of its score.
#[derive(Debug)]
pub struct Pick {
    pub node: Node,
    pub hit: Ranked,
}

impl Pick {
    /// A copy.
    pub fn copy(&self) -> (r: Pick)
        ensures
            r == *self,
    {
        Pick { node: self.node.clone(), hit: self.hit.copy() }
    }
}

/// The nodes that may be shown: they exist, they are not denied, and they are no noise.
pub open spec fn allowed(store: Store, hits: Seq<Ranked>, denied: Seq<u64>) -> Seq<Pick>
    decreases hits.len(),
{
    if hits.len() == 0 {
        Seq::empty()
    } else {
        let a = allowed(store, hits.drop_last(), denied);
        match store.node(hits.last().id) {
            Some(n) => if denied.contains(n.id) || n.is_noise {
                a
            } else {
                a.push(Pick { node: n, hit: hits.last() })
            },
            None => a,
        }
    }
}

/// The nodes that are an answer.
pub open spec fn answers(v: Seq<Pick>) -> Seq<Pick>
    decreases v.len(),
{
    if v.len() == 0 {
        Seq::empty()
    } else if crate::noise::result_noise(v.last().node) {
        answers(v.drop_last())
    } else {
        answers(v.drop_last()).push(v.last())
    }
}

/// The nodes that are an answer, or all where none is.
pub open spec fn answers_or_all(v: Seq<Pick>) -> Seq<Pick> {
    if answers(v).len() > 0 {
        answers(v)
    } else {
        v
    }
}

pub open spec fn pick_keys(v: Seq<Pick>) -> Seq<KeyView> {
    Seq::new(
        v.len(),
        |i: int| (KeyView { first: v[i].hit.weight as nat, second: 0, name: Seq::empty() }),
    )
}

/// The nodes, best first.
pub open spec fn best_first(v: Seq<Pick>) -> Seq<Pick> {
    crate::rank::at(v, crate::rank::order_of(pick_keys(v)))
}

/// The first few nodes, and the others above the floor.
pub open spec fn floored(v: Seq<Pick>) -> Seq<Pick>
    decreases v.len(),
{
    if v.len() == 0 {
        Seq::empty()
    } else if v.len() <= MIN_KEEP || v.last().hit.clears_floor {
        floored(v.drop_last()).push(v.last())
    } else {
        floored(v.drop_last())
    }
}

/// The nodes that compete for the budget, best first.
pub open spec fn candidates(store: Store, hits: Seq<Ranked>, denied: Seq<u64>) -> Seq<Pick> {
    floored(best_first(answers_or_all(allowed(store, hits, denied))))
}

/// A node of that id is there.
pub open spec fn has_pick(v: Seq<Pick>, id: u64) -> bool {
    exists|i: int| 0 <= i < v.len() && (#[trigger] v[i]).node.id == id
}

/// The first candidate of an id.
pub open spec fn pick_of(v: Seq<Pick>, id: u64) -> Option<Pick>
    decreases v.len(),
{
    if v.len() == 0 {
        None
    } else if pick_of(v.drop_last(), id) is Some {
        pick_of(v.drop_last(), id)
    } else if v.last().node.id == id {
        Some(v.last())
    } else {
        None
    }
}

/// The candidates that were chosen, each once, in the order of the choice.
pub open spec fn picked(v: Seq<Pick>, chosen: Seq<u64>) -> Seq<Pick>
    decreases chosen.len(),
{
    if chosen.len() == 0 {
        Seq::empty()
    } else {
        let p = picked(v, chosen.drop_last());
        match pick_of(v, chosen.last()) {
            Some(x) => if has_pick(p, chosen.last()) {
                p
            } else {
                p.push(x)
            },
            None => p,
        }
    }
}

fn allowed_of(store: &Store, hits: &Vec<Ranked>, denied: &Vec<u64>) -> (r: Vec<Pick>)
    ensures
        r@ == allowed(*store, hits@, denied@),
{
    let mut r: Vec<Pick> = Vec::new();
    let mut i: usize = 0;
    while i < hits.len()
        invariant
            i <= hits@.len(),
            r@ == allowed(*store, hits@.take(i as int), denied@),
        decreases hits@.len() - i,
    {
        assert(hits@.take(i + 1).drop_last() =~= hits@.take(i as int));
        if let Some(n) = store.get_node(hits[i].id) {
            if !has_number(denied, n.id) && !n.is_noise {
                r.push(Pick { node: n.clone(), hit: hits[i].copy() });
            }
        }
        i += 1;
    }
    assert(hits@.take(i as int) =~= hits@);
    r
}

fn answers_of(v: &Vec<Pick>) -> (r: Vec<Pick>)
    ensures
        r@ == answers(v@),
{
    let mut r: Vec<Pick> = Vec::new();
    let mut i: usize = 0;
    while i < v.len()
        invariant
            i <= v@.len(),
            r@ == answers(v@.take(i as int)),
        decreases v@.len() - i,
    {
        assert(v@.take(i + 1).drop_last() =~= v@.take(i as int));
        if !is_context_result_noise(&v[i].node) {
            r.push(v[i].copy());
        }
        i += 1;
    }
    assert(v@.take(i as int) =~= v@);
    r
}

fn best_first_of(v: &Vec<Pick>) -> (r: Vec<Pick>)
    ensures
        r@ == best_first(v@),
{
    let ghost want = pick_keys(v@);
    let mut keys: Vec<Key> = Vec::new();
    let mut i: usize = 0;
    while i < v.len()
        invariant
            i <= v@.len(),
            want == pick_keys(v@),
            keys@.len() == i,
            forall|j: int| 0 <= j < i ==> #[trigger] keys@[j]@ == want[j],
        decreases v@.len() - i,
    {
        let k = Key { first: v[i].hit.weight, second: 0, name: String::new() };
        assert(k.name@ =~= Seq::<char>::empty());
        keys.push(k);
        i += 1;
    }
    assert(crate::rank::key_views(keys@) =~= want);
    let order = rank(&keys);
    let ghost p = crate::rank::order_of(want);
    let mut r: Vec<Pick> = Vec::new();
    let mut k: usize = 0;
    while k < order.len()
        invariant
            k <= order@.len(),
            order@.len() == v@.len(),
            p == crate::rank::ints(order@),
            forall|j: int| 0 <= j < order@.len() ==> #[trigger] order@[j] < v@.len(),
            r@.len() == k,
            forall|j: int| 0 <= j < k ==> #[trigger] r@[j] == v@[p[j]],
        decreases order@.len() - k,
    {
        assert(p[k as int] == order@[k as int]);
        r.push(v[order[k]].copy());
        k += 1;
    }
    assert(r@ =~= best_first(v@));
    r
}

fn floored_of(v: &Vec<Pick>) -> (r: Vec<Pick>)
    ensures
        r@ == floored(v@),
{
    let mut r: Vec<Pick> = Vec::new();
    let mut i: usize = 0;
    while i < v.len()
        invariant
            i <= v@.len(),
            r@ == floored(v@.take(i as int)),
        decreases v@.len() - i,
    {
        assert(v@.take(i + 1).drop_last() =~= v@.take(i as int));
        if i < MIN_KEEP || v[i].hit.clears_floor {
            r.push(v[i].copy());
        }
        i += 1;
    }
    assert(v@.take(i as int) =~= v@);
    r
}

/// The nodes that may be shown, without what is no answer, best first, and without the tail of poor
/// scores. `denied` lists the nodes that the caller may not see.
pub fn context_candidates(store: &Store, hits: &Vec<Ranked>, denied: &Vec<u64>) -> (r: Vec<Pick>)
    ensures
        r@ == candidates(*store, hits@, denied@),
{
    let all = allowed_of(store, hits, denied);
    let own = answers_of(&all);
    if own.len() > 0 {
        let sorted = best_first_of(&own);
        floored_of(&sorted)
    } else {
        let sorted = best_first_of(&all);
        floored_of(&sorted)
    }
}

fn is_picked(v: &Vec<Pick>, id: u64) -> (r: bool)
    ensures
        r == has_pick(v@, id),
{
    let mut i: usize = 0;
    while i < v.len()
        invariant
            i <= v@.len(),
            forall|j: int| 0 <= j < i ==> (#[trigger] v@[j]).node.id != id,
        decreases v@.len() - i,
    {
        if v[i].node.id == id {
            return true;
        }
        i += 1;
    }
    false
}

fn find_pick(v: &Vec<Pick>, id: u64) -> (r: Option<&Pick>)
    ensures
        r is Some == pick_of(v@, id) is Some,
        r matches Some(x) ==> pick_of(v@, id) == Some(*x),
{
    let mut r: Option<&Pick> = None;
    let mut i: usize = 0;
    while i < v.len()
        invariant
            i <= v@.len(),
            r is Some == pick_of(v@.take(i as int), id) is Some,
            r matches Some(x) ==> pick_of(v@.take(i as int), id) == Some(*x),
        decreases v@.len() - i,
    {
        assert(v@.take(i + 1).drop_last() =~= v@.take(i as int));
        if r.is_none() && v[i].node.id == id {
            r = Some(&v[i]);
        }
        i += 1;
    }
    assert(v@.take(i as int) =~= v@);
    r
}

pub(crate) fn picked_of(v: &Vec<Pick>, chosen: &Vec<u64>) -> (r: Vec<Pick>)
    ensures
        r@ == picked(v@, chosen@),
{
    let mut r: Vec<Pick> = Vec::new();
    let mut i: usize = 0;
    while i < chosen.len()
        invariant
            i <= chosen@.len(),
            r@ == picked(v@, chosen@.take(i as int)),
        decreases chosen@.len() - i,
    {
        assert(chosen@.take(i + 1).drop_last() =~= chosen@.take(i as int));
        if let Some(x) = find_pick(v, chosen[i]) {
            if !is_picked(&r, chosen[i]) {
                r.push(x.copy());
            }
        }
        i += 1;
    }
    assert(chosen@.take(i as int) =~= chosen@);
    r
}

// ---------------------------------------------------------------- costs

/// What the nodes cost together, in tokens.
pub open spec fn cost(v: Seq<Pick>) -> nat
    decreases v.len(),
{
    if v.len() == 0 {
        0
    } else {
        cost(v.drop_last()) + v.last().node.token_cost as nat
    }
}

/// What the nodes cost together, as far as a machine word holds it.
pub open spec fn total(v: Seq<Pick>) -> nat {
    if cost(v) > usize::MAX {
        usize::MAX as nat
    } else {
        cost(v)
    }
}

pub(crate) fn total_of(v: &Vec<Pick>) -> (r: usize)
    ensures
        r == total(v@),
{
    let mut r: usize = 0;
    let mut i: usize = 0;
    while i < v.len()
        invariant
            i <= v@.len(),
            r == total(v@.take(i as int)),
        decreases v@.len() - i,
    {
        assert(v@.take(i + 1).drop_last() =~= v@.take(i as int));
        if v[i].node.token_cost > usize::MAX - r {
            r = usize::MAX;
        } else {
            r += v[i].node.token_cost;
        }
        i += 1;
    }
    assert(v@.take(i as int) =~= v@);
    r
}

// ---------------------------------------------------------------- what had no room

/// The candidates that were not chosen.
pub open spec fn left_out(v: Seq<Pick>, shown: Seq<Pick>) -> Seq<Pick>
    decreases v.len(),
{
    if v.len() == 0 {
        Seq::empty()
    } else if has_pick(shown, v.last().node.id) {
        left_out(v.drop_last(), shown)
    } else {
        left_out(v.drop_last(), shown).push(v.last())
    }
}

/// The line of a node that had no room.
pub open spec fn left_line(p: Pick) -> Seq<char> {
    "  "@ + p.node.signature@ + "  score: "@ + p.hit.score@ + "  "@ + p.node.path@
}

pub open spec fn left_lines(v: Seq<Pick>) -> Seq<Seq<char>> {
    Seq::new(v.len(), |i: int| left_line(v[i]))
}

/// What is said of the candidates that had no room.
pub open spec fn overflow(v: Seq<Pick>, shown: Seq<Pick>) -> Option<Seq<char>> {
    let left = crate::seeds::first(left_out(v, shown), OVERFLOW_DISPLAY_CAP as nat);
    if shown.len() < v.len() && left.len() > 0 {
        Some(
            "["@ + crate::text::dec((v.len() - shown.len()) as nat)
                + " more node(s) matched (score \u{2265} "@ + left.last().hit.score@
                + "), budget exhausted. Use a specific symbol name for deeper coverage, or call get_blast_radius / get_callers / get_dependencies for complete results.]\n"@
                + crate::text::join(left_lines(left), "\n"@),
        )
    } else {
        None
    }
}

fn left_out_of(v: &Vec<Pick>, shown: &Vec<Pick>) -> (r: Vec<Pick>)
    ensures
        r@ == left_out(v@, shown@),
{
    let mut r: Vec<Pick> = Vec::new();
    let mut i: usize = 0;
    while i < v.len()
        invariant
            i <= v@.len(),
            r@ == left_out(v@.take(i as int), shown@),
        decreases v@.len() - i,
    {
        assert(v@.take(i + 1).drop_last() =~= v@.take(i as int));
        if !is_picked(shown, v[i].node.id) {
            r.push(v[i].copy());
        }
        i += 1;
    }
    assert(v@.take(i as int) =~= v@);
    r
}

pub(crate) fn overflow_of(v: &Vec<Pick>, shown: &Vec<Pick>) -> (r: Option<String>)
    ensures
        r is Some == overflow(v@, shown@) is Some,
        r matches Some(s) ==> overflow(v@, shown@) == Some(s@),
{
    if shown.len() >= v.len() {
        return None;
    }
    let mut left = left_out_of(v, shown);
    if left.len() == 0 {
        return None;
    }
    if left.len() > OVERFLOW_DISPLAY_CAP {
        left.truncate(OVERFLOW_DISPLAY_CAP);
    }
    let ghost lv = crate::seeds::first(left_out(v@, shown@), OVERFLOW_DISPLAY_CAP as nat);
    assert(left@ =~= lv);
    let count = dec_usize(v.len() - shown.len());
    let mut msg = cat3("[", count.as_str(), " more node(s) matched (score \u{2265} ");
    msg.append(left[left.len() - 1].hit.score.as_str());
    msg.append(
        "), budget exhausted. Use a specific symbol name for deeper coverage, or call get_blast_radius / get_callers / get_dependencies for complete results.]\n",
    );
    let mut lines: Vec<String> = Vec::new();
    let mut i: usize = 0;
    while i < left.len()
        invariant
            i <= left@.len(),
            lines@.len() == i,
            forall|j: int| 0 <= j < i ==> #[trigger] lines@[j]@ == left_line(left@[j]),
        decreases left@.len() - i,
    {
        let mut s = cat3("  ", left[i].node.signature.as_str(), "  score: ");
        s.append(left[i].hit.score.as_str());
        s.append("  ");
        s.append(left[i].node.path.as_str());
        lines.push(s);
        i += 1;
    }
    assert(crate::text::views(lines@) =~= left_lines(left@));
    let all = join_strings(&lines, "\n");
    msg.append(all.as_str());
    Some(msg)
}

// ---------------------------------------------------------------- laws

proof fn lemma_allowed(store: Store, hits: Seq<Ranked>, denied: Seq<u64>)
    ensures
        forall|p: Pick| #[trigger]
            allowed(store, hits, denied).contains(p) ==> !denied.contains(p.node.id)
                && !p.node.is_noise,
    decreases hits.len(),
{
    if hits.len() > 0 {
        lemma_allowed(store, hits.drop_last(), denied);
        let a = allowed(store, hits.drop_last(), denied);
        assert forall|p: Pick| #[trigger] allowed(store, hits, denied).contains(
            p,
        ) implies !denied.contains(p.node.id) && !p.node.is_noise by {
            if let Some(n) = store.node(hits.last().id) {
                crate::store::lemma_push_contains(a, Pick { node: n, hit: hits.last() }, p);
            }
            if a.contains(p) {
            }
        }
    }
}

proof fn lemma_answers(v: Seq<Pick>)
    ensures
        forall|p: Pick| #[trigger]
            answers(v).contains(p) ==> v.contains(p) && !crate::noise::result_noise(p.node),
        forall|p: Pick| #[trigger]
            v.contains(p) && !crate::noise::result_noise(p.node) ==> answers(v).contains(p),
    decreases v.len(),
{
    if v.len() > 0 {
        let q = v.drop_last();
        lemma_answers(q);
        assert(v =~= q.push(v.last()));
        assert forall|p: Pick| #[trigger] answers(v).contains(p) implies v.contains(p)
            && !crate::noise::result_noise(p.node) by {
            crate::store::lemma_push_contains(q, v.last(), p);
            crate::store::lemma_push_contains(answers(q), v.last(), p);
            if answers(q).contains(p) {
            }
        }
        assert forall|p: Pick| #[trigger]
            v.contains(p) && !crate::noise::result_noise(p.node) implies answers(v).contains(p) by {
            crate::store::lemma_push_contains(q, v.last(), p);
            crate::store::lemma_push_contains(answers(q), v.last(), p);
            if q.contains(p) {
            }
        }
    }
}

proof fn lemma_best_first(v: Seq<Pick>)
    ensures
        best_first(v).len() == v.len(),
        forall|p: Pick| #[trigger] best_first(v).contains(p) ==> v.contains(p),
{
    crate::rank::lemma_order(pick_keys(v));
    let o = crate::rank::order_of(pick_keys(v));
    assert forall|p: Pick| #[trigger] best_first(v).contains(p) implies v.contains(p) by {
        let i = choose|i: int| 0 <= i < best_first(v).len() && best_first(v)[i] == p;
        assert(v[o[i]] == p);
    }
}

proof fn lemma_floored(v: Seq<Pick>)
    ensures
        forall|p: Pick| #[trigger] floored(v).contains(p) ==> v.contains(p),
        v.len() > 0 ==> floored(v).len() > 0,
    decreases v.len(),
{
    if v.len() > 0 {
        let q = v.drop_last();
        lemma_floored(q);
        assert(v =~= q.push(v.last()));
        assert forall|p: Pick| #[trigger] floored(v).contains(p) implies v.contains(p) by {
            crate::store::lemma_push_contains(q, v.last(), p);
            crate::store::lemma_push_contains(floored(q), v.last(), p);
            if floored(q).contains(p) {
            }
        }
    }
}

proof fn lemma_candidates(store: Store, hits: Seq<Ranked>, denied: Seq<u64>)
    ensures
        forall|p: Pick| #[trigger]
            candidates(store, hits, denied).contains(p) ==> allowed(store, hits, denied).contains(p),
{
    let a = allowed(store, hits, denied);
    let b = answers_or_all(a);
    let c = best_first(b);
    lemma_answers(a);
    lemma_best_first(b);
    lemma_floored(c);
    assert forall|p: Pick| #[trigger] candidates(store, hits, denied).contains(p) implies a.contains(
        p,
    ) by {
        assert(c.contains(p));
        assert(b.contains(p));
    }
}

proof fn lemma_pick_of(v: Seq<Pick>, id: u64)
    ensures
        pick_of(v, id) matches Some(p) ==> v.contains(p) && p.node.id == id,
    decreases v.len(),
{
    if v.len() > 0 {
        let q = v.drop_last();
        lemma_pick_of(q, id);
        assert(v =~= q.push(v.last()));
        if let Some(p) = pick_of(v, id) {
            crate::store::lemma_push_contains(q, v.last(), p);
        }
    }
}

proof fn lemma_picked(v: Seq<Pick>, chosen: Seq<u64>)
    ensures
        forall|p: Pick| #[trigger] picked(v, chosen).contains(p) ==> v.contains(p),
    decreases chosen.len(),
{
    if chosen.len() > 0 {
        let q = picked(v, chosen.drop_last());
        lemma_picked(v, chosen.drop_last());
        lemma_pick_of(v, chosen.last());
        assert forall|p: Pick| #[trigger] picked(v, chosen).contains(p) implies v.contains(p) by {
            if let Some(x) = pick_of(v, chosen.last()) {
                crate::store::lemma_push_contains(q, x, p);
            }
            if q.contains(p) {
            }
        }
    }
}

/// Whatever was found and chosen, no answer shows a node that is denied to its caller, or noise.
pub proof fn law_denied_nodes_are_never_shown(
    store: Store,
    hits: Seq<Ranked>,
    denied: Seq<u64>,
    chosen: Seq<u64>,
    i: int,
)
    requires
        0 <= i < picked(candidates(store, hits, denied), chosen).len(),
    ensures
        !denied.contains(picked(candidates(store, hits, denied), chosen)[i].node.id),
        !picked(candidates(store, hits, denied), chosen)[i].node.is_noise,
{
    let c = candidates(store, hits, denied);
    let p = picked(c, chosen)[i];
    lemma_picked(c, chosen);
    lemma_candidates(store, hits, denied);
    lemma_allowed(store, hits, denied);
    assert(picked(c, chosen).contains(p));
    assert(c.contains(p));
    assert(allowed(store, hits, denied).contains(p));
}

/// Neither the filter of what is no answer nor the floor ever leaves nothing of something.
pub proof fn law_filters_never_empty_the_candidates(
    store: Store,
    hits: Seq<Ranked>,
    denied: Seq<u64>,
)
    requires
        allowed(store, hits, denied).len() > 0,
    ensures
        candidates(store, hits, denied).len() > 0,
{
    let b = answers_or_all(allowed(store, hits, denied));
    lemma_best_first(b);
    lemma_floored(best_first(b));
}

proof fn lemma_answers_kept(v: Seq<Pick>)
    requires
        exists|i: int|
            0 <= i < v.len() && !crate::noise::result_noise((#[trigger] v[i]).node),
    ensures
        answers(v).len() > 0,
{
    lemma_answers(v);
    let i = choose|i: int|
        0 <= i < v.len() && !crate::noise::result_noise((#[trigger] v[i]).node);
    assert(v.contains(v[i]));
    assert(answers(v).contains(v[i]));
}

/// Where any of the nodes that may be shown is an answer, nothing else is a candidate.
pub proof fn law_answers_push_out_noise(
    store: Store,
    hits: Seq<Ranked>,
    denied: Seq<u64>,
    p: Pick,
)
    requires
        exists|i: int|
            0 <= i < allowed(store, hits, denied).len() && !crate::noise::result_noise(
                (#[trigger] allowed(store, hits, denied)[i]).node,
            ),
        candidates(store, hits, denied).contains(p),
    ensures
        !crate::noise::result_noise(p.node),
{
    let a = allowed(store, hits, denied);
    lemma_answers_kept(a);
    lemma_answers(a);
    lemma_best_first(answers(a));
    lemma_floored(best_first(answers(a)));
    assert(best_first(answers(a)).contains(p));
    assert(answers(a).contains(p));
}

proof fn lemma_allowed_has(store: Store, hits: Seq<Ranked>, denied: Seq<u64>, i: int, n: Node)
    requires
        0 <= i < hits.len(),
        store.node(hits[i].id) == Some(n),
        !denied.contains(n.id),
        !n.is_noise,
    ensures
        allowed(store, hits, denied).contains(Pick { node: n, hit: hits[i] }),
    decreases hits.len(),
{
    let p = hits.drop_last();
    let x = Pick { node: n, hit: hits[i] };
    let a = allowed(store, p, denied);
    if i < p.len() {
        lemma_allowed_has(store, p, denied, i, n);
        assert(p[i] == hits[i]);
        if let Some(m) = store.node(hits.last().id) {
            crate::store::lemma_push_contains(a, Pick { node: m, hit: hits.last() }, x);
        }
    } else {
        crate::store::lemma_push_contains(a, x, x);
    }
}

proof fn lemma_best_first_has(v: Seq<Pick>, x: Pick)
    requires
        v.contains(x),
    ensures
        best_first(v).contains(x),
{
    crate::rank::lemma_order(pick_keys(v));
    let o = crate::rank::order_of(pick_keys(v));
    let k = choose|k: int| 0 <= k < v.len() && v[k] == x;
    assert(o.contains(k));
    let i = choose|i: int| 0 <= i < o.len() && o[i] == k;
    assert(best_first(v)[i] == x);
}

proof fn lemma_floored_has(v: Seq<Pick>, i: int)
    requires
        0 <= i < v.len(),
        i < 8 || v[i].hit.clears_floor,
    ensures
        floored(v).contains(v[i]),
        i < 8 ==> i < floored(v).len() && floored(v)[i] == v[i],
    decreases v.len(),
{
    let p = v.drop_last();
    if i < p.len() {
        lemma_floored_has(p, i);
        assert(p[i] == v[i]);
        crate::store::lemma_push_contains(floored(p), v.last(), v[i]);
    } else {
        crate::store::lemma_push_contains(floored(p), v.last(), v[i]);
        if i < 8 {
            lemma_floored_all(p);
        }
    }
}

proof fn lemma_floored_all(v: Seq<Pick>)
    requires
        v.len() <= 8,
    ensures
        floored(v) == v,
    decreases v.len(),
{
    if v.len() > 0 {
        lemma_floored_all(v.drop_last());
        assert(v.drop_last().push(v.last()) =~= v);
    } else {
        assert(floored(v) =~= v);
    }
}

/// Every node that was found is a candidate, unless it is denied, noise, no answer, or below the floor.
pub proof fn law_every_answer_is_a_candidate(
    store: Store,
    hits: Seq<Ranked>,
    denied: Seq<u64>,
    i: int,
    n: Node,
)
    requires
        0 <= i < hits.len(),
        store.node(hits[i].id) == Some(n),
        !denied.contains(n.id),
        !n.is_noise,
        !crate::noise::result_noise(n),
        hits[i].clears_floor,
    ensures
        candidates(store, hits, denied).contains(Pick { node: n, hit: hits[i] }),
{
    let x = Pick { node: n, hit: hits[i] };
    let a = allowed(store, hits, denied);
    lemma_allowed_has(store, hits, denied, i, n);
    lemma_answers(a);
    assert(answers(a).contains(x));
    let b = best_first(answers(a));
    lemma_best_first_has(answers(a), x);
    let k = choose|k: int| 0 <= k < b.len() && b[k] == x;
    lemma_floored_has(b, k);
}

/// The eight best answers are candidates whatever the floor, in their order.
pub proof fn law_the_best_need_no_floor(store: Store, hits: Seq<Ranked>, denied: Seq<u64>, k: int)
    requires
        0 <= k < 8,
        k < best_first(answers_or_all(allowed(store, hits, denied))).len(),
    ensures
        k < candidates(store, hits, denied).len(),
        candidates(store, hits, denied)[k] == best_first(
            answers_or_all(allowed(store, hits, denied)),
        )[k],
{
    lemma_floored_has(best_first(answers_or_all(allowed(store, hits, denied))), k);
}

/// A list of nodes, none with less weight than a later one.
pub open spec fn falls(v: Seq<Pick>) -> bool {
    forall|i: int, j: int|
        0 <= i < j < v.len() ==> (#[trigger] v[i]).hit.weight >= (#[trigger] v[j]).hit.weight
}

proof fn lemma_floored_falls(v: Seq<Pick>)
    requires
        falls(v),
    ensures
        falls(floored(v)),
    decreases v.len(),
{
    if v.len() > 0 {
        let p = v.drop_last();
        assert forall|i: int, j: int| 0 <= i < j < p.len() implies (#[trigger] p[i]).hit.weight >= (
        #[trigger] p[j]).hit.weight by {
            assert(p[i] == v[i] && p[j] == v[j]);
        }
        lemma_floored_falls(p);
        lemma_floored(p);
        let f = floored(p);
        let g = f.push(v.last());
        assert forall|i: int, j: int| 0 <= i < j < g.len() implies (#[trigger] g[i]).hit.weight >= (
        #[trigger] g[j]).hit.weight by {
            assert(g[i] == f[i]);
            if j < f.len() {
                assert(g[j] == f[j]);
            } else {
                assert(f.contains(f[i]));
                assert(p.contains(f[i]));
                let k = choose|k: int| 0 <= k < p.len() && p[k] == f[i];
                assert(v[k] == p[k]);
                assert(v[k].hit.weight >= v[v.len() - 1].hit.weight);
            }
        }
    }
}

/// Heavier candidates come first.
pub proof fn law_candidates_fall_in_weight(store: Store, hits: Seq<Ranked>, denied: Seq<u64>)
    ensures
        falls(candidates(store, hits, denied)),
{
    let v = answers_or_all(allowed(store, hits, denied));
    let b = best_first(v);
    let keys = pick_keys(v);
    crate::rank::lemma_order(keys);
    let o = crate::rank::order_of(keys);
    crate::order::lemma_before_irreflexive(Seq::<char>::empty());
    assert forall|i: int, j: int| 0 <= i < j < b.len() implies (#[trigger] b[i]).hit.weight >= (
    #[trigger] b[j]).hit.weight by {
        assert(crate::rank::ranks(keys, o[i], o[j]));
    }
    lemma_floored_falls(b);
}

proof fn lemma_pick_of_some(v: Seq<Pick>, id: u64)
    ensures
        pick_of(v, id) is Some <==> has_pick(v, id),
    decreases v.len(),
{
    if v.len() > 0 {
        let p = v.drop_last();
        lemma_pick_of_some(p, id);
        if has_pick(p, id) {
            let i = choose|i: int| 0 <= i < p.len() && (#[trigger] p[i]).node.id == id;
            assert(v[i].node.id == id);
        }
        if has_pick(v, id) {
            let i = choose|i: int| 0 <= i < v.len() && (#[trigger] v[i]).node.id == id;
            if i < p.len() {
                assert(p[i].node.id == id);
            }
        }
        if v.last().node.id == id {
            assert(v[v.len() - 1].node.id == id);
        }
    }
}

/// What the search selected is shown: of every selected id that is a candidate one node, and of no other.
pub proof fn law_every_selected_candidate_is_picked(v: Seq<Pick>, chosen: Seq<u64>)
    ensures
        forall|id: u64| #[trigger]
            has_pick(picked(v, chosen), id) <==> chosen.contains(id) && has_pick(v, id),
        forall|i: int, j: int|
            0 <= i < j < picked(v, chosen).len() ==> (#[trigger] picked(v, chosen)[i]).node.id != (
            #[trigger] picked(v, chosen)[j]).node.id,
        forall|i: int| 0 <= i < picked(v, chosen).len() ==> v.contains(#[trigger] picked(v, chosen)[i]),
    decreases chosen.len(),
{
    if chosen.len() > 0 {
        let c = chosen.drop_last();
        let last = chosen.last();
        let p = picked(v, c);
        let r = picked(v, chosen);
        law_every_selected_candidate_is_picked(v, c);
        lemma_pick_of_some(v, last);
        lemma_pick_of(v, last);
        assert(chosen =~= c.push(last));
        assert forall|id: u64| #[trigger] has_pick(r, id) <==> chosen.contains(id) && has_pick(v, id) by {
            crate::store::lemma_push_contains(c, last, id);
            assert(has_pick(p, id) <==> c.contains(id) && has_pick(v, id));
            if has_pick(p, id) {
                let i = choose|i: int| 0 <= i < p.len() && (#[trigger] p[i]).node.id == id;
                assert(r[i].node.id == id);
            }
            if has_pick(r, id) {
                let i = choose|i: int| 0 <= i < r.len() && (#[trigger] r[i]).node.id == id;
                if i < p.len() {
                    assert(p[i].node.id == id);
                }
            }
            if id == last && has_pick(v, id) && !has_pick(p, id) {
                assert(r[r.len() - 1].node.id == id);
            }
        }
        assert forall|i: int, j: int| 0 <= i < j < r.len() implies (#[trigger] r[i]).node.id != (
        #[trigger] r[j]).node.id by {
            assert(r[i] == p[i]);
            if j < p.len() {
                assert(r[j] == p[j]);
            }
        }
        assert forall|i: int| 0 <= i < r.len() implies v.contains(#[trigger] r[i]) by {
            if i < p.len() {
                assert(r[i] == p[i]);
            }
        }
    }
}

/// A candidate is shown or left out, and never both.
pub proof fn law_what_is_not_shown_is_left_out(v: Seq<Pick>, shown: Seq<Pick>, i: int)
    requires
        0 <= i < v.len(),
    ensures
        has_pick(shown, v[i].node.id) <==> !left_out(v, shown).contains(v[i]),
    decreases v.len(),
{
    let p = v.drop_last();
    let l = left_out(p, shown);
    crate::store::lemma_push_contains(l, v.last(), v[i]);
    if i < p.len() {
        law_what_is_not_shown_is_left_out(p, shown, i);
        assert(p[i] == v[i]);
    } else if has_pick(shown, v[i].node.id) {
        lemma_left_out(p, shown);
        assert(!l.contains(v[i]));
    }
}

proof fn lemma_left_out(v: Seq<Pick>, shown: Seq<Pick>)
    ensures
        forall|x: Pick| #[trigger] left_out(v, shown).contains(x) ==> !has_pick(shown, x.node.id),
    decreases v.len(),
{
    if v.len() > 0 {
        let p = v.drop_last();
        lemma_left_out(p, shown);
        assert forall|x: Pick| #[trigger] left_out(v, shown).contains(x) implies !has_pick(
            shown,
            x.node.id,
        ) by {
            crate::store::lemma_push_contains(left_out(p, shown), v.last(), x);
            if left_out(p, shown).contains(x) {
            }
        }
    }
}

/// What nodes cost together is the sum of what they cost.
pub proof fn law_costs_add_up(a: Seq<Pick>, b: Seq<Pick>)
    ensures
        cost(a + b) == cost(a) + cost(b),
        a.len() == 1 ==> cost(a) == a[0].node.token_cost,
    decreases b.len(),
{
    reveal_with_fuel(cost, 2);
    if b.len() == 0 {
        assert(a + b =~= a);
    } else {
        assert((a + b).drop_last() =~= a + b.drop_last());
        law_costs_add_up(a, b.drop_last());
    }
}

} // verus!
