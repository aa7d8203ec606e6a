//! Whether a query is about more than one thing.

use vstd::prelude::*;

use crate::seeds::{has_number, leads_to};
use crate::store::Store;

verus! {

/// An edge joins the two nodes, in either direction.
pub open spec fn linked(store: Store, a: u64, b: u64) -> bool {
    crate::seeds::leads(store, a, b) || crate::seeds::leads(store, b, a)
}

/// The set holds every seed that an edge joins to one of its members.
pub open spec fn closed(store: Store, ids: Seq<u64>, s: Set<u64>) -> bool {
    forall|a: u64, b: u64|
        s.contains(a) && ids.contains(b) && #[trigger] linked(store, a, b) ==> s.contains(b)
}

/// A chain of edges over seeds joins the two: every closed set with the one holds the other.
pub open spec fn together(store: Store, ids: Seq<u64>, a: u64, b: u64) -> bool {
    forall|s: Set<u64>| s.contains(a) && #[trigger] closed(store, ids, s) ==> s.contains(b)
}

/// Another seed is joined to it.
pub open spec fn clustered(store: Store, ids: Seq<u64>, a: u64) -> bool {
    exists|i: int| 0 <= i < ids.len() && #[trigger] ids[i] != a && linked(store, a, ids[i])
}

/// Two seeds that lie in different clusters of at least two seeds each.
pub open spec fn separate(store: Store, ids: Seq<u64>, a: u64, b: u64) -> bool {
    clustered(store, ids, a) && clustered(store, ids, b) && !together(store, ids, a, b)
}

/// The seeds form more than one cluster.
pub open spec fn spans_concepts(store: Store, ids: Seq<u64>) -> bool {
    ids.len() >= 4 && exists|i: int, j: int|
        0 <= i < ids.len() && 0 <= j < ids.len() && #[trigger] separate(store, ids, ids[i], ids[j])
}

fn are_linked(store: &Store, a: u64, b: u64) -> (r: bool)
    ensures
        r == linked(*store, a, b),
{
    leads_to(store, a, b) || leads_to(store, b, a)
}

fn is_clustered(store: &Store, ids: &Vec<u64>, a: u64) -> (r: bool)
    ensures
        r == clustered(*store, ids@, a),
{
    let mut i: usize = 0;
    while i < ids.len()
        invariant
            i <= ids@.len(),
            forall|j: int| 0 <= j < i ==> !(#[trigger] ids@[j] != a && linked(*store, a, ids@[j])),
        decreases ids@.len() - i,
    {
        if ids[i] != a && are_linked(store, a, ids[i]) {
            return true;
        }
        i += 1;
    }
    false
}

/// The seeds that are in one cluster with a seed.
fn cluster_of(store: &Store, ids: &Vec<u64>, a: u64) -> (r: Vec<u64>)
    requires
        ids@.contains(a),
    ensures
        forall|b: u64|
            ids@.contains(b) ==> (#[trigger] r@.contains(b) <==> together(*store, ids@, a, b)),
{
    let mut r: Vec<u64> = Vec::new();
    r.push(a);
    let mut i: usize = 0;
    assert(r@[0] == a);
    assert(together(*store, ids@, a, a));
    while i < r.len()
        invariant
            i <= r@.len(),
            r@.len() > 0,
            r@[0] == a,
            r@.no_duplicates(),
            forall|k: int| 0 <= k < r@.len() ==> ids@.contains(#[trigger] r@[k]),
            forall|k: int| 0 <= k < r@.len() ==> together(*store, ids@, a, #[trigger] r@[k]),
            forall|k: int, b: u64|
                0 <= k < i && ids@.contains(b) && #[trigger] linked(*store, r@[k], b)
                    ==> r@.contains(b),
        decreases ids@.len() - i,
    {
        proof {
            crate::order::lemma_distinct_within(r@, ids@);
        }
        let x: u64 = r[i];
        let mut m: usize = 0;
        while m < ids.len()
            invariant
                i < r@.len(),
                r@[i as int] == x,
                m <= ids@.len(),
                r@[0] == a,
                r@.no_duplicates(),
                forall|k: int| 0 <= k < r@.len() ==> ids@.contains(#[trigger] r@[k]),
                forall|k: int| 0 <= k < r@.len() ==> together(*store, ids@, a, #[trigger] r@[k]),
                forall|k: int, b: u64|
                    0 <= k < i && ids@.contains(b) && #[trigger] linked(*store, r@[k], b)
                        ==> r@.contains(b),
                forall|j: int|
                    0 <= j < m && linked(*store, x, #[trigger] ids@[j]) ==> r@.contains(ids@[j]),
            decreases ids@.len() - m,
        {
            let b: u64 = ids[m];
            if are_linked(store, x, b) && !has_number(&r, b) {
                let ghost was = r@;
                r.push(b);
                proof {
                    assert(together(*store, ids@, a, was[i as int]));
                    assert(ids@.contains(ids@[m as int]));
                    assert forall|s: Set<u64>| s.contains(a) && #[trigger] closed(*store, ids@, s) implies s.contains(
                        b,
                    ) by {
                        assert(s.contains(x));
                        assert(linked(*store, x, b));
                    }
                    assert(together(*store, ids@, a, b));
                    assert forall|k: int| 0 <= k < r@.len() implies ids@.contains(#[trigger] r@[k]) by {
                        if k < was.len() {
                            assert(r@[k] == was[k]);
                        }
                    }
                    assert forall|k: int| 0 <= k < r@.len() implies together(
                        *store,
                        ids@,
                        a,
                        #[trigger] r@[k],
                    ) by {
                        if k < was.len() {
                            assert(r@[k] == was[k]);
                        }
                    }
                    assert forall|k: int, y: u64|
                        0 <= k < i && ids@.contains(y) && #[trigger] linked(
                            *store,
                            r@[k],
                            y,
                        ) implies r@.contains(y) by {
                        assert(r@[k] == was[k]);
                        crate::store::lemma_push_contains(was, b, y);
                    }
                    assert forall|j: int|
                        0 <= j < m && linked(*store, x, #[trigger] ids@[j]) implies r@.contains(
                        ids@[j],
                    ) by {
                        crate::store::lemma_push_contains(was, b, ids@[j]);
                    }
                    crate::store::lemma_push_contains(was, b, b);
                }
            }
            m += 1;
        }
        assert forall|k: int, b: u64|
            0 <= k < i + 1 && ids@.contains(b) && #[trigger] linked(
                *store,
                r@[k],
                b,
            ) implies r@.contains(b) by {
            if k == i {
                let j = choose|j: int| 0 <= j < ids@.len() && ids@[j] == b;
                assert(linked(*store, x, ids@[j]));
            }
        }
        proof {
            crate::order::lemma_distinct_within(r@, ids@);
        }
        i += 1;
    }
    proof {
        let s = r@.to_set();
        assert forall|x: u64, b: u64|
            s.contains(x) && ids@.contains(b) && #[trigger] linked(*store, x, b) implies s.contains(
            b,
        ) by {
            let k = choose|k: int| 0 <= k < r@.len() && r@[k] == x;
            assert(linked(*store, r@[k], b));
            assert(r@.contains(b));
        }
        assert(closed(*store, ids@, s));
        assert(s.contains(a)) by {
            assert(r@.contains(r@[0]));
        }
        assert forall|b: u64| ids@.contains(b) implies (#[trigger] r@.contains(b) <==> together(
            *store,
            ids@,
            a,
            b,
        )) by {
            if r@.contains(b) {
                let k = choose|k: int| 0 <= k < r@.len() && r@[k] == b;
                assert(together(*store, ids@, a, r@[k]));
            }
            if together(*store, ids@, a, b) {
                assert(s.contains(b));
            }
        }
    }
    r
}

/// Whether the seeds of a query form more than one cluster of at least two.
pub fn spans_several_concepts(store: &Store, ids: &Vec<u64>) -> (r: bool)
    ensures
        r == spans_concepts(*store, ids@),
{
    if ids.len() < 4 {
        return false;
    }
    let mut i: usize = 0;
    while i < ids.len()
        invariant
            i <= ids@.len(),
            ids@.len() >= 4,
            forall|k: int, l: int|
                0 <= k < i && 0 <= l < ids@.len() ==> !#[trigger] separate(
                    *store,
                    ids@,
                    ids@[k],
                    ids@[l],
                ),
        decreases ids@.len() - i,
    {
        let a: u64 = ids[i];
        assert(ids@.contains(ids@[i as int]));
        if is_clustered(store, ids, a) {
            let own = cluster_of(store, ids, a);
            let mut j: usize = 0;
            while j < ids.len()
                invariant
                    i < ids@.len(),
                    ids@.len() >= 4,
                    ids@[i as int] == a,
                    j <= ids@.len(),
                    clustered(*store, ids@, a),
                    forall|b: u64|
                        ids@.contains(b) ==> (#[trigger] own@.contains(b) <==> together(
                            *store,
                            ids@,
                            a,
                            b,
                        )),
                    forall|l: int|
                        0 <= l < j ==> !#[trigger] separate(*store, ids@, a, ids@[l]),
                decreases ids@.len() - j,
            {
                assert(ids@.contains(ids@[j as int]));
                if is_clustered(store, ids, ids[j]) && !has_number(&own, ids[j]) {
                    assert(separate(*store, ids@, ids@[i as int], ids@[j as int]));
                    return true;
                }
                j += 1;
            }
        }
        i += 1;
    }
    false
}

} // verus!
