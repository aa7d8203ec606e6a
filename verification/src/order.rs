//! The order of strings, and lists of strings in order without repetition.

use vstd::prelude::*;

use crate::text::{chars_of, views};

verus! {

/// `a` stands before `b`: they first differ where `a` has the smaller character, or `a` ends there.
pub open spec fn before(a: Seq<char>, b: Seq<char>) -> bool
    decreases a.len(),
{
    if b.len() == 0 {
        false
    } else if a.len() == 0 {
        true
    } else if a[0] != b[0] {
        a[0] < b[0]
    } else {
        before(a.drop_first(), b.drop_first())
    }
}

pub proof fn lemma_before_irreflexive(a: Seq<char>)
    ensures
        !before(a, a),
    decreases a.len(),
{
    if a.len() > 0 {
        lemma_before_irreflexive(a.drop_first());
    }
}

pub proof fn lemma_before_total(a: Seq<char>, b: Seq<char>)
    ensures
        before(a, b) || before(b, a) || a == b,
    decreases a.len(),
{
    if a.len() > 0 && b.len() > 0 && a[0] == b[0] {
        lemma_before_total(a.drop_first(), b.drop_first());
        if a.drop_first() == b.drop_first() {
            assert(a =~= seq![a[0]] + a.drop_first());
            assert(b =~= seq![b[0]] + b.drop_first());
        }
    } else if a.len() == 0 && b.len() == 0 {
        assert(a =~= b);
    }
}

pub proof fn lemma_before_transitive(a: Seq<char>, b: Seq<char>, c: Seq<char>)
    requires
        before(a, b),
        before(b, c),
    ensures
        before(a, c),
    decreases a.len(),
{
    if a.len() > 0 && a[0] == b[0] && b[0] == c[0] {
        lemma_before_transitive(a.drop_first(), b.drop_first(), c.drop_first());
    }
}

pub fn is_before(a: &str, b: &str) -> (r: bool)
    ensures
        r == before(a@, b@),
{
    let av = chars_of(a);
    let bv = chars_of(b);
    let mut i: usize = 0;
    assert(av@.skip(0) =~= av@);
    assert(bv@.skip(0) =~= bv@);
    while i < av.len() && i < bv.len()
        invariant
            av@ == a@,
            bv@ == b@,
            i <= av@.len(),
            i <= bv@.len(),
            before(av@, bv@) == before(av@.skip(i as int), bv@.skip(i as int)),
        decreases av@.len() - i,
    {
        let x: char = av[i];
        let y: char = bv[i];
        assert(av@.skip(i as int)[0] == x);
        assert(bv@.skip(i as int)[0] == y);
        if x != y {
            return x < y;
        }
        i += 1;
        assert(av@.skip(i - 1).drop_first() =~= av@.skip(i as int));
        assert(bv@.skip(i - 1).drop_first() =~= bv@.skip(i as int));
    }
    i < bv.len()
}

/// In order, without repetition.
pub open spec fn ascending(v: Seq<Seq<char>>) -> bool {
    forall|i: int, j: int| 0 <= i < j < v.len() ==> before(#[trigger] v[i], #[trigger] v[j])
}

/// The members of a set of texts in order, each once.
pub open spec fn sorted_of(s: Set<Seq<char>>) -> Seq<Seq<char>> {
    choose|v: Seq<Seq<char>>| ascending(v) && v.to_set() == s
}

/// An ascending list is fixed by its members.
pub proof fn lemma_ascending_unique(a: Seq<Seq<char>>, b: Seq<Seq<char>>)
    requires
        ascending(a),
        ascending(b),
        a.to_set() == b.to_set(),
    ensures
        a == b,
    decreases a.len(),
{
    if a.len() == 0 {
        if b.len() > 0 {
            assert(b.to_set().contains(b[0]));
            assert(a.to_set().contains(b[0]));
        }
        assert(a =~= b);
    } else {
        assert(a.to_set().contains(a[a.len() - 1]));
        assert(b.to_set().contains(a[a.len() - 1]));
        assert(b.len() > 0);
        let x = a.last();
        let y = b.last();
        assert(x == y) by {
            let i = choose|i: int| 0 <= i < b.len() && b[i] == x;
            assert(b.to_set().contains(y));
            assert(a.to_set().contains(y));
            let j = choose|j: int| 0 <= j < a.len() && a[j] == y;
            if i != b.len() - 1 && j != a.len() - 1 {
                assert(before(b[i], b[b.len() - 1]));
                assert(before(a[j], a[a.len() - 1]));
                lemma_before_transitive(x, y, x);
                lemma_before_irreflexive(x);
            }
        }
        let ap = a.drop_last();
        let bp = b.drop_last();
        assert(ap.to_set() =~= bp.to_set()) by {
            assert forall|t: Seq<char>| ap.to_set().contains(t) implies bp.to_set().contains(t) by {
                let i = choose|i: int| 0 <= i < ap.len() && ap[i] == t;
                assert(a[i] == t);
                assert(a.to_set().contains(t));
                assert(b.to_set().contains(t));
                let j = choose|j: int| 0 <= j < b.len() && b[j] == t;
                if j == b.len() - 1 {
                    assert(before(a[i], a[a.len() - 1]));
                    lemma_before_irreflexive(t);
                }
                assert(bp[j] == t);
            }
            assert forall|t: Seq<char>| bp.to_set().contains(t) implies ap.to_set().contains(t) by {
                let i = choose|i: int| 0 <= i < bp.len() && bp[i] == t;
                assert(b[i] == t);
                assert(b.to_set().contains(t));
                assert(a.to_set().contains(t));
                let j = choose|j: int| 0 <= j < a.len() && a[j] == t;
                if j == a.len() - 1 {
                    assert(before(b[i], b[b.len() - 1]));
                    lemma_before_irreflexive(t);
                }
                assert(ap[j] == t);
            }
        }
        lemma_ascending_unique(ap, bp);
        assert(a =~= ap.push(x));
        assert(b =~= bp.push(y));
    }
}

/// An ascending list with the members of `s` is `sorted_of(s)`.
pub proof fn lemma_sorted_of(v: Seq<Seq<char>>)
    requires
        ascending(v),
    ensures
        sorted_of(v.to_set()) == v,
{
    let w = sorted_of(v.to_set());
    assert(ascending(w) && w.to_set() == v.to_set());
    lemma_ascending_unique(v, w);
}

/// An ascending list with one more member.
proof fn lemma_ascending_with(v: Seq<Seq<char>>, x: Seq<char>) -> (w: Seq<Seq<char>>)
    requires
        ascending(v),
        !v.contains(x),
    ensures
        ascending(w),
        w.to_set() == v.to_set().insert(x),
    decreases v.len(),
{
    if v.len() == 0 {
        let w = seq![x];
        assert(w =~= v.push(x));
        lemma_to_set_push(v, x);
        w
    } else {
        let y = v.last();
        lemma_before_total(x, y);
        if before(y, x) {
            let w = v.push(x);
            lemma_to_set_push(v, x);
            assert forall|i: int, j: int| 0 <= i < j < w.len() implies before(
                #[trigger] w[i],
                #[trigger] w[j],
            ) by {
                if j == v.len() && i < v.len() - 1 {
                    assert(before(v[i], v[v.len() - 1]));
                    lemma_before_transitive(v[i], y, x);
                }
            }
            w
        } else {
            let p = v.drop_last();
            assert(v =~= p.push(y));
            if p.contains(x) {
                let i = choose|i: int| 0 <= i < p.len() && p[i] == x;
                assert(v[i] == x);
            }
            if y == x {
                assert(v[v.len() - 1] == x);
            }
            assert(ascending(p));
            let q = lemma_ascending_with(p, x);
            let w = q.push(y);
            lemma_to_set_push(q, y);
            lemma_to_set_push(p, y);
            assert forall|i: int, j: int| 0 <= i < j < w.len() implies before(
                #[trigger] w[i],
                #[trigger] w[j],
            ) by {
                if j == q.len() {
                    assert(q.to_set().contains(q[i]));
                    if q[i] != x {
                        assert(p.to_set().contains(q[i]));
                        let k = choose|k: int| 0 <= k < p.len() && p[k] == q[i];
                        assert(before(v[k], v[v.len() - 1]));
                    }
                } else {
                    assert(before(q[i], q[j]));
                }
            }
            assert(w.to_set() =~= v.to_set().insert(x));
            w
        }
    }
}

/// The members of a finite set of texts can be put in order: `sorted_of` is that list.
pub proof fn law_finite_set_is_sorted(s: Set<Seq<char>>)
    requires
        s.finite(),
    ensures
        ascending(sorted_of(s)),
        sorted_of(s).to_set() == s,
        sorted_of(s).len() == s.len(),
    decreases s.len(),
{
    let v = if s.len() == 0 {
        let v = Seq::<Seq<char>>::empty();
        assert(s =~= Set::empty());
        assert(v.to_set() =~= s);
        v
    } else {
        let x = s.choose();
        assert(s.contains(x));
        let rest = s.remove(x);
        law_finite_set_is_sorted(rest);
        let w = sorted_of(rest);
        if w.contains(x) {
            assert(w.to_set().contains(x));
        }
        let v = lemma_ascending_with(w, x);
        assert(v.to_set() =~= s);
        v
    };
    assert(ascending(v) && v.to_set() == s);
    let o = sorted_of(s);
    assert(ascending(o) && o.to_set() == s);
    lemma_ascending_distinct(o);
    o.unique_seq_to_set();
}

/// Whether `s` is a member of the ascending list `v`, and the first place that is not before it.
fn place(v: &Vec<String>, s: &str) -> (r: (usize, bool))
    requires
        ascending(views(v@)),
    ensures
        r.0 <= v@.len(),
        forall|i: int| 0 <= i < r.0 ==> before(#[trigger] views(v@)[i], s@),
        r.1 ==> r.0 < v@.len() && v@[r.0 as int]@ == s@,
        !r.1 ==> forall|i: int| r.0 <= i < v@.len() ==> before(s@, #[trigger] views(v@)[i]),
        r.1 == views(v@).contains(s@),
{
    let mut lo: usize = 0;
    let mut hi: usize = v.len();
    let ghost w = views(v@);
    while lo < hi
        invariant
            w == views(v@),
            ascending(w),
            lo <= hi <= v@.len(),
            forall|i: int| 0 <= i < lo ==> before(#[trigger] w[i], s@),
            forall|i: int| hi <= i < v@.len() ==> !before(#[trigger] w[i], s@),
        decreases hi - lo,
    {
        let mid: usize = lo + (hi - lo) / 2;
        assert(w[mid as int] == v@[mid as int]@);
        if is_before(v[mid].as_str(), s) {
            assert forall|i: int| 0 <= i < mid + 1 implies before(#[trigger] w[i], s@) by {
                if i < mid {
                    lemma_before_transitive(w[i], w[mid as int], s@);
                }
            }
            lo = mid + 1;
        } else {
            assert forall|i: int| mid <= i < v@.len() implies !before(#[trigger] w[i], s@) by {
                if i > mid && before(w[i], s@) {
                    lemma_before_transitive(w[mid as int], w[i], s@);
                }
            }
            hi = mid;
        }
    }
    let found = lo < v.len() && crate::text::same(v[lo].as_str(), s);
    proof {
        if lo < v@.len() {
            assert(w[lo as int] == v@[lo as int]@);
        }
        assert forall|i: int| lo <= i < v@.len() && !found implies before(
            s@,
            #[trigger] w[i],
        ) by {
            lemma_before_total(s@, w[lo as int]);
            if i > lo {
                lemma_before_transitive(s@, w[lo as int], w[i]);
            }
        }
        if !found && w.contains(s@) {
            let k = choose|k: int| 0 <= k < w.len() && w[k] == s@;
            lemma_before_irreflexive(s@);
        }
        if found {
            assert(w[lo as int] == s@);
        }
    }
    (lo, found)
}

/// Whether `s` is a member of the ascending list `v`.
pub fn is_member(v: &Vec<String>, s: &str) -> (r: bool)
    requires
        ascending(views(v@)),
    ensures
        r == views(v@).contains(s@),
{
    place(v, s).1
}

/// Puts `s` in its place, unless it is a member already.
pub fn insert_member(v: &mut Vec<String>, s: String) -> (fresh: bool)
    requires
        ascending(views(old(v)@)),
    ensures
        ascending(views(final(v)@)),
        views(final(v)@).to_set() == views(old(v)@).to_set().insert(s@),
        fresh == !views(old(v)@).contains(s@),
        fresh ==> final(v)@.len() == old(v)@.len() + 1,
        !fresh ==> final(v)@ == old(v)@,
{
    let (at, found) = place(v, s.as_str());
    let ghost w = views(v@);
    if found {
        assert(w.to_set().insert(s@) =~= w.to_set());
        return false;
    }
    let ghost sv = s@;
    v.insert(at, s);
    let ghost n = views(v@);
    proof {
        assert(n =~= w.insert(at as int, sv));
        assert forall|i: int, j: int| 0 <= i < j < n.len() implies before(
            #[trigger] n[i],
            #[trigger] n[j],
        ) by {
            let oi = if i < at { i } else { i - 1 };
            let oj = if j < at { j } else { j - 1 };
            if i != at && j != at {
                assert(n[i] == w[oi]);
                assert(n[j] == w[oj]);
            } else if i == at {
                assert(n[j] == w[oj]);
            } else {
                assert(n[i] == w[oi]);
            }
        }
        assert(n.to_set() =~= w.to_set().insert(sv)) by {
            assert forall|t: Seq<char>| n.to_set().contains(t) implies w.to_set().insert(
                sv,
            ).contains(t) by {
                let i = choose|i: int| 0 <= i < n.len() && n[i] == t;
                if i < at {
                    assert(w[i] == t);
                } else if i > at {
                    assert(w[i - 1] == t);
                }
            }
            assert forall|t: Seq<char>| w.to_set().insert(sv).contains(t) implies n.to_set().contains(
                t,
            ) by {
                if t == sv {
                    assert(n[at as int] == t);
                } else {
                    let i = choose|i: int| 0 <= i < w.len() && w[i] == t;
                    if i < at {
                        assert(n[i] == t);
                    } else {
                        assert(n[i + 1] == t);
                    }
                }
            }
        }
    }
    true
}

/// The strings of `v` in order, each once.
pub fn sort_unique(v: &Vec<String>) -> (r: Vec<String>)
    ensures
        views(r@) == sorted_of(views(v@).to_set()),
        ascending(views(r@)),
        views(r@).to_set() == views(v@).to_set(),
{
    let mut r: Vec<String> = Vec::new();
    let ghost w = views(v@);
    let mut i: usize = 0;
    assert(views(r@) =~= Seq::<Seq<char>>::empty());
    assert(views(r@).to_set() =~= w.take(0).to_set());
    while i < v.len()
        invariant
            w == views(v@),
            i <= v@.len(),
            ascending(views(r@)),
            views(r@).to_set() == w.take(i as int).to_set(),
        decreases v@.len() - i,
    {
        let s = v[i].clone();
        insert_member(&mut r, s);
        i += 1;
        proof {
            lemma_to_set_take(w, i - 1);
        }
    }
    assert(w.take(i as int) =~= w);
    proof {
        lemma_sorted_of(views(r@));
    }
    r
}

/// An ascending list holds nothing twice.
pub proof fn lemma_ascending_distinct(v: Seq<Seq<char>>)
    requires
        ascending(v),
    ensures
        v.no_duplicates(),
{
    assert forall|i: int, j: int| 0 <= i < v.len() && 0 <= j < v.len() && i != j implies v[i]
        != v[j] by {
        lemma_before_irreflexive(v[i]);
        if i < j {
            assert(before(v[i], v[j]));
        } else {
            assert(before(v[j], v[i]));
        }
    }
}

/// A list without repetition is no longer than a list that holds all its entries.
pub proof fn lemma_distinct_within<A>(a: Seq<A>, b: Seq<A>)
    requires
        a.no_duplicates(),
        forall|i: int| 0 <= i < a.len() ==> b.contains(#[trigger] a[i]),
    ensures
        a.len() <= b.len(),
{
    a.unique_seq_to_set();
    b.lemma_cardinality_of_set();
    assert(a.to_set().subset_of(b.to_set())) by {
        assert forall|x: A| a.to_set().contains(x) implies b.to_set().contains(x) by {
            let i = choose|i: int| 0 <= i < a.len() && a[i] == x;
            assert(b.contains(a[i]));
        }
    }
    vstd::set_lib::lemma_len_subset(a.to_set(), b.to_set());
}

pub proof fn lemma_to_set_push<A>(s: Seq<A>, x: A)
    ensures
        s.push(x).to_set() == s.to_set().insert(x),
{
    let p = s.push(x);
    assert forall|t: A| p.to_set().contains(t) <==> s.to_set().insert(x).contains(t) by {
        if s.to_set().insert(x).contains(t) {
            if t == x {
                assert(p[s.len() as int] == t);
            } else {
                let i = choose|i: int| 0 <= i < s.len() && s[i] == t;
                assert(p[i] == t);
            }
        }
        if p.to_set().contains(t) {
            let i = choose|i: int| 0 <= i < p.len() && p[i] == t;
            if i < s.len() {
                assert(s[i] == t);
            }
        }
    }
    assert(p.to_set() =~= s.to_set().insert(x));
}

pub proof fn lemma_to_set_take<A>(s: Seq<A>, i: int)
    requires
        0 <= i < s.len(),
    ensures
        s.take(i + 1).to_set() == s.take(i).to_set().insert(s[i]),
{
    assert(s.take(i + 1) =~= s.take(i).push(s[i]));
    lemma_to_set_push(s.take(i), s[i]);
}

} // verus!
