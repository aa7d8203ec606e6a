//! Ranking: largest counts first, then by name, then in the order given.

use vstd::prelude::*;

use crate::order::{before, is_before, lemma_before_irreflexive, lemma_before_total, lemma_before_transitive};

verus! {

/// What an entry is ranked by.
pub struct Key {
    pub first: usize,
    pub second: usize,
    pub name: String,
}

/// The values of a key.
pub struct KeyView {
    pub first: nat,
    pub second: nat,
    pub name: Seq<char>,
}

impl View for Key {
    type V = KeyView;

    open spec fn view(&self) -> KeyView {
        KeyView { first: self.first as nat, second: self.second as nat, name: self.name@ }
    }
}

pub open spec fn key_views(v: Seq<Key>) -> Seq<KeyView> {
    Seq::new(v.len(), |i: int| v[i]@)
}

/// `a` ranks ahead of `b`: by the larger first count, then the larger second count, then the name.
pub open spec fn ahead(a: KeyView, b: KeyView) -> bool {
    if a.first != b.first {
        a.first > b.first
    } else if a.second != b.second {
        a.second > b.second
    } else {
        before(a.name, b.name)
    }
}

/// Entry `x` ranks ahead of entry `y`, the earlier one where their keys are equal.
pub open spec fn ranks(keys: Seq<KeyView>, x: int, y: int) -> bool {
    ahead(keys[x], keys[y]) || (keys[x] == keys[y] && x < y)
}

/// `p` lists the first `n` entries by rank.
pub open spec fn is_order(keys: Seq<KeyView>, n: int, p: Seq<int>) -> bool {
    &&& p.len() == n
    &&& forall|i: int| 0 <= i < n ==> 0 <= #[trigger] p[i] < n
    &&& forall|x: int| 0 <= x < n ==> #[trigger] p.contains(x)
    &&& forall|i: int, j: int| 0 <= i < j < n ==> ranks(keys, #[trigger] p[i], #[trigger] p[j])
}

/// The positions of all entries by rank.
pub open spec fn order_of(keys: Seq<KeyView>) -> Seq<int> {
    choose|p: Seq<int>| is_order(keys, keys.len() as int, p)
}

/// The entries of `s` at the positions `p`.
pub open spec fn at<A>(s: Seq<A>, p: Seq<int>) -> Seq<A> {
    Seq::new(p.len(), |i: int| s[p[i]])
}

pub proof fn lemma_ranks_strict(keys: Seq<KeyView>, x: int, y: int)
    requires
        ranks(keys, x, y),
    ensures
        !ranks(keys, y, x),
        x != y,
{
    lemma_before_irreflexive(keys[x].name);
    if before(keys[x].name, keys[y].name) && before(keys[y].name, keys[x].name) {
        lemma_before_transitive(keys[x].name, keys[y].name, keys[x].name);
    }
}

pub proof fn lemma_ranks_total(keys: Seq<KeyView>, x: int, y: int)
    ensures
        x == y || ranks(keys, x, y) || ranks(keys, y, x),
{
    lemma_before_total(keys[x].name, keys[y].name);
}

pub proof fn lemma_ranks_transitive(keys: Seq<KeyView>, x: int, y: int, z: int)
    requires
        ranks(keys, x, y),
        ranks(keys, y, z),
    ensures
        ranks(keys, x, z),
{
    if before(keys[x].name, keys[y].name) && before(keys[y].name, keys[z].name) {
        lemma_before_transitive(keys[x].name, keys[y].name, keys[z].name);
    }
}

/// Two lists by rank of the same entries are the same list.
proof fn lemma_order_prefix(keys: Seq<KeyView>, n: int, p: Seq<int>, q: Seq<int>, k: int)
    requires
        is_order(keys, n, p),
        is_order(keys, n, q),
        0 <= k <= n,
    ensures
        forall|i: int| 0 <= i < k ==> p[i] == q[i],
    decreases k,
{
    if k > 0 {
        lemma_order_prefix(keys, n, p, q, k - 1);
        let x = p[k - 1];
        let y = q[k - 1];
        if x != y {
            assert(q.contains(x));
            let i = choose|i: int| 0 <= i < q.len() && q[i] == x;
            assert(p.contains(y));
            let j = choose|j: int| 0 <= j < p.len() && p[j] == y;
            if i < k - 1 {
                assert(p[i] == x);
                lemma_ranks_strict(keys, p[i], p[k - 1]);
            } else if j < k - 1 {
                assert(q[j] == y);
                lemma_ranks_strict(keys, q[j], q[k - 1]);
            } else {
                assert(ranks(keys, q[k - 1], q[i]));
                assert(ranks(keys, p[k - 1], p[j]));
                lemma_ranks_strict(keys, x, y);
            }
        }
    }
}

pub proof fn lemma_order_unique(keys: Seq<KeyView>, p: Seq<int>)
    requires
        is_order(keys, keys.len() as int, p),
    ensures
        order_of(keys) == p,
{
    lemma_order_prefix(keys, keys.len() as int, p, order_of(keys), keys.len() as int);
    assert(order_of(keys) =~= p);
}

/// Where an entry goes among entries listed by rank.
spec fn spot(keys: Seq<KeyView>, p: Seq<int>, x: int) -> int
    decreases p.len(),
{
    if p.len() == 0 {
        0
    } else if ranks(keys, x, p.last()) {
        spot(keys, p.drop_last(), x)
    } else {
        p.len() as int
    }
}

proof fn lemma_spot(keys: Seq<KeyView>, p: Seq<int>, x: int)
    requires
        forall|i: int, j: int|
            0 <= i < j < p.len() ==> ranks(keys, #[trigger] p[i], #[trigger] p[j]),
        forall|i: int| 0 <= i < p.len() ==> #[trigger] p[i] != x,
    ensures
        0 <= spot(keys, p, x) <= p.len(),
        forall|i: int| 0 <= i < spot(keys, p, x) ==> ranks(keys, #[trigger] p[i], x),
        forall|i: int| spot(keys, p, x) <= i < p.len() ==> ranks(keys, x, #[trigger] p[i]),
    decreases p.len(),
{
    if p.len() > 0 {
        let q = p.drop_last();
        let k = spot(keys, p, x);
        if ranks(keys, x, p.last()) {
            lemma_spot(keys, q, x);
            assert forall|i: int| k <= i < p.len() implies ranks(keys, x, #[trigger] p[i]) by {
                if i < q.len() {
                    assert(q[i] == p[i]);
                }
            }
            assert forall|i: int| 0 <= i < k implies ranks(keys, #[trigger] p[i], x) by {
                assert(q[i] == p[i]);
            }
        } else {
            lemma_ranks_total(keys, x, p.last());
            assert forall|i: int| 0 <= i < k implies ranks(keys, #[trigger] p[i], x) by {
                if i < p.len() - 1 {
                    lemma_ranks_transitive(keys, p[i], p.last(), x);
                }
            }
        }
    }
}

proof fn lemma_some_order(keys: Seq<KeyView>, n: int) -> (p: Seq<int>)
    requires
        0 <= n <= keys.len(),
    ensures
        is_order(keys, n, p),
    decreases n,
{
    if n == 0 {
        Seq::empty()
    } else {
        let q = lemma_some_order(keys, n - 1);
        let x = n - 1;
        lemma_spot(keys, q, x);
        let k = spot(keys, q, x);
        let p = q.insert(k, x);
        assert forall|i: int| 0 <= i < n implies 0 <= #[trigger] p[i] < n by {
            if i < k {
                assert(p[i] == q[i]);
            } else if i > k {
                assert(p[i] == q[i - 1]);
            }
        }
        assert forall|y: int| 0 <= y < n implies #[trigger] p.contains(y) by {
            if y == x {
                assert(p[k] == x);
            } else {
                assert(q.contains(y));
                let j = choose|j: int| 0 <= j < q.len() && q[j] == y;
                if j < k {
                    assert(p[j] == y);
                } else {
                    assert(p[j + 1] == y);
                }
            }
        }
        assert forall|i: int, j: int| 0 <= i < j < n implies ranks(
            keys,
            #[trigger] p[i],
            #[trigger] p[j],
        ) by {
            let oi = if i < k {
                i
            } else {
                i - 1
            };
            let oj = if j < k {
                j
            } else {
                j - 1
            };
            if i != k && j != k {
                assert(p[i] == q[oi] && p[j] == q[oj]);
            } else if i == k {
                assert(p[j] == q[oj]);
            } else {
                assert(p[i] == q[oi]);
            }
        }
        p
    }
}

/// Entries always have an order.
pub proof fn lemma_order(keys: Seq<KeyView>)
    ensures
        is_order(keys, keys.len() as int, order_of(keys)),
{
    let p = lemma_some_order(keys, keys.len() as int);
    lemma_order_unique(keys, p);
}

pub open spec fn ints(v: Seq<usize>) -> Seq<int> {
    Seq::new(v.len(), |i: int| v[i] as int)
}

fn is_ahead(a: &Key, b: &Key) -> (r: bool)
    ensures
        r == ahead(a@, b@),
{
    if a.first != b.first {
        a.first > b.first
    } else if a.second != b.second {
        a.second > b.second
    } else {
        is_before(a.name.as_str(), b.name.as_str())
    }
}

/// The positions of all entries by rank.
pub fn rank(keys: &Vec<Key>) -> (p: Vec<usize>)
    ensures
        ints(p@) == order_of(key_views(keys@)),
        is_order(key_views(keys@), keys@.len() as int, ints(p@)),
        p@.len() == keys@.len(),
        forall|i: int| 0 <= i < p@.len() ==> #[trigger] p@[i] < keys@.len(),
{
    let mut p: Vec<usize> = Vec::new();
    let ghost kv = key_views(keys@);
    let mut i: usize = 0;
    while i < keys.len()
        invariant
            i <= keys@.len(),
            kv == key_views(keys@),
            is_order(kv, i as int, ints(p@)),
        decreases keys@.len() - i,
    {
        let mut k: usize = p.len();
        let ghost pv = ints(p@);
        assert forall|j: int| 0 <= j < i implies #[trigger] p@[j] < i by {
            assert(pv[j] == p@[j]);
        }
        while k > 0 && is_ahead(&keys[i], &keys[p[k - 1]])
            invariant
                k <= p@.len(),
                p@.len() == i,
                i < keys@.len(),
                kv == key_views(keys@),
                pv == ints(p@),
                is_order(kv, i as int, pv),
                forall|j: int| 0 <= j < i ==> #[trigger] p@[j] < i,
                forall|j: int| k <= j < i ==> ranks(kv, i as int, #[trigger] pv[j]),
            decreases k,
        {
            assert(p@[k - 1] < i);
            assert(pv[k - 1] == p@[k - 1]);
            k -= 1;
        }
        proof {
            if k > 0 {
                lemma_ranks_total(kv, i as int, pv[k - 1]);
                assert(p@[k - 1] < i);
                assert(pv[k - 1] == p@[k - 1]);
                assert(kv[pv[k - 1]] == keys@[p@[k - 1] as int]@);
                assert(kv[i as int] == keys@[i as int]@);
                assert(ranks(kv, pv[k - 1], i as int));
            }
            assert forall|j: int| 0 <= j < k implies ranks(kv, #[trigger] pv[j], i as int) by {
                if j < k - 1 {
                    lemma_ranks_transitive(kv, pv[j], pv[k - 1], i as int);
                }
            }
        }
        p.insert(k, i);
        proof {
            let n = ints(p@);
            assert(n =~= pv.insert(k as int, i as int));
            assert forall|x: int| 0 <= x < i + 1 implies #[trigger] n.contains(x) by {
                if x == i {
                    assert(n[k as int] == x);
                } else {
                    assert(pv.contains(x));
                    let j = choose|j: int| 0 <= j < pv.len() && pv[j] == x;
                    if j < k {
                        assert(n[j] == x);
                    } else {
                        assert(n[j + 1] == x);
                    }
                }
            }
            assert forall|a: int, b: int| 0 <= a < b < i + 1 implies ranks(
                kv,
                #[trigger] n[a],
                #[trigger] n[b],
            ) by {
                let oa = if a < k { a } else { a - 1 };
                let ob = if b < k { b } else { b - 1 };
                if a != k && b != k {
                    assert(n[a] == pv[oa] && n[b] == pv[ob]);
                } else if a == k {
                    assert(n[b] == pv[ob]);
                } else {
                    assert(n[a] == pv[oa]);
                }
            }
            assert forall|a: int| 0 <= a < i + 1 implies 0 <= #[trigger] n[a] < i + 1 by {
                if a < k {
                    assert(n[a] == pv[a]);
                } else if a > k {
                    assert(n[a] == pv[a - 1]);
                }
            }
        }
        i += 1;
    }
    proof {
        lemma_order_unique(kv, ints(p@));
        assert forall|j: int| 0 <= j < p@.len() implies #[trigger] p@[j] < keys@.len() by {
            assert(ints(p@)[j] == p@[j]);
        }
    }
    p
}

} // verus!
