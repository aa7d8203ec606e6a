//! Laws on texts, numbers, names and recorded answers.

use vstd::prelude::*;

use crate::split::{is_space, lines, split, trim};
use crate::store::{Node, Store};
use crate::text::{after_last, dec, join};

verus! {

// ---------------------------------------------------------------- numbers

/// The number that a row of digits stands for.
pub open spec fn reads_as(s: Seq<char>) -> nat
    decreases s.len(),
{
    if s.len() == 0 {
        0
    } else {
        10 * reads_as(s.drop_last()) + (s.last() as u32 - '0' as u32) as nat
    }
}

/// The decimal form of a number is made of digits, reads as that number, and starts with a zero only for zero.
pub proof fn law_decimals_read_back(n: nat)
    ensures
        reads_as(dec(n)) == n,
        dec(n).len() > 0,
        forall|i: int| 0 <= i < dec(n).len() ==> '0' <= #[trigger] dec(n)[i] <= '9',
        n > 0 ==> dec(n)[0] != '0',
    decreases n,
{
    reveal_with_fuel(reads_as, 2);
    if n < 10 {
        assert(dec(n).drop_last() =~= Seq::<char>::empty());
    } else {
        law_decimals_read_back(n / 10);
        let p = dec(n / 10);
        assert(dec(n).drop_last() =~= p);
        assert forall|i: int| 0 <= i < dec(n).len() implies '0' <= #[trigger] dec(n)[i] <= '9' by {
            if i < p.len() {
                assert(dec(n)[i] == p[i]);
            }
        }
        assert(dec(n)[0] == p[0]);
    }
}

// ---------------------------------------------------------------- parts of texts

/// Parts that are split at a character hold it nowhere, and joined with it give the text again.
pub proof fn law_split_parts_join_back(s: Seq<char>, c: char)
    ensures
        join(split(s, c, c), seq![c]) == s,
        split(s, c, c).len() > 0,
        forall|i: int|
            0 <= i < split(s, c, c).len() ==> !(#[trigger] split(s, c, c)[i]).contains(c),
    decreases s.len(),
{
    let r = split(s, c, c);
    if s.len() == 0 {
        assert(s =~= Seq::<char>::empty());
    } else {
        let p = s.drop_last();
        let q = split(p, c, c);
        law_split_parts_join_back(p, c);
        assert(s =~= p.push(s.last()));
        if s.last() == c {
            assert(r.drop_last() =~= q);
            assert(join(r, seq![c]) =~= p + seq![c] + Seq::<char>::empty());
            assert(join(r, seq![c]) =~= s);
            assert forall|i: int| 0 <= i < r.len() implies !(#[trigger] r[i]).contains(c) by {
                if i < q.len() {
                    assert(r[i] == q[i]);
                }
            }
        } else {
            assert(r.drop_last() =~= q.drop_last());
            let last = q.last().push(s.last());
            assert(!q[q.len() - 1].contains(c));
            if q.len() == 1 {
                assert(join(r, seq![c]) =~= s);
            } else {
                assert(join(r, seq![c]) =~= join(q, seq![c]).push(s.last()));
            }
            assert forall|i: int| 0 <= i < r.len() implies !(#[trigger] r[i]).contains(c) by {
                if i < q.len() - 1 {
                    assert(r[i] == q[i]);
                } else {
                    crate::store::lemma_push_contains(q.last(), s.last(), c);
                }
            }
        }
    }
}

/// The lines of a text without carriage returns are its parts between line feeds, but for an empty one at the end.
pub proof fn law_lines_are_parts_between_line_feeds(s: Seq<char>)
    requires
        !s.contains('\r'),
    ensures
        s.len() > 0 && s.last() != '\n' ==> lines(s) == split(s, '\n', '\n'),
        lines(s.push('\n')) == split(s, '\n', '\n'),
        lines(Seq::<char>::empty()).len() == 0,
{
    let p = split(s, '\n', '\n');
    law_split_parts_join_back(s, '\n');
    lemma_parts_hold_no(s, '\r');
    assert forall|i: int| 0 <= i < p.len() implies crate::split::unreturned(#[trigger] p[i]) == p[i] by {
        assert(!p[i].contains('\r'));
        if p[i].len() > 0 {
            assert(p[i][p[i].len() - 1] != '\r');
        }
    }
    let q = split(s.push('\n'), '\n', '\n');
    assert(s.push('\n').drop_last() =~= s);
    assert(q == p.push(Seq::empty()));
    assert(lines(s.push('\n')) =~= p);
    if s.len() > 0 && s.last() != '\n' {
        assert(p.last().len() > 0);
        assert(lines(s) =~= p);
    }
}

proof fn lemma_parts_hold_no(s: Seq<char>, x: char)
    requires
        !s.contains(x),
    ensures
        forall|i: int|
            0 <= i < split(s, '\n', '\n').len() ==> !(#[trigger] split(s, '\n', '\n')[i]).contains(x),
    decreases s.len(),
{
    if s.len() > 0 {
        let p = s.drop_last();
        assert forall|i: int| 0 <= i < p.len() implies p[i] != x by {
            assert(s[i] != x);
        }
        lemma_parts_hold_no(p, x);
        let q = split(p, '\n', '\n');
        let r = split(s, '\n', '\n');
        crate::text_laws::law_split_parts_join_back(p, '\n');
        assert(s[s.len() - 1] != x);
        assert forall|i: int| 0 <= i < r.len() implies !(#[trigger] r[i]).contains(x) by {
            if s.last() == '\n' {
                if i < q.len() {
                    assert(r[i] == q[i]);
                }
            } else if i < q.len() - 1 {
                assert(r[i] == q[i]);
            } else {
                assert(!q[q.len() - 1].contains(x));
                crate::store::lemma_push_contains(q.last(), s.last(), x);
            }
        }
    }
}

// ---------------------------------------------------------------- trimming

proof fn lemma_trim_end(s: Seq<char>)
    ensures
        crate::split::trim_end(s).is_prefix_of(s),
        crate::split::trim_end(s).len() > 0 ==> !is_space(crate::split::trim_end(s).last()),
        forall|i: int| crate::split::trim_end(s).len() <= i < s.len() ==> is_space(#[trigger] s[i]),
    decreases s.len(),
{
    if s.len() > 0 && is_space(s.last()) {
        let p = s.drop_last();
        lemma_trim_end(p);
        let t = crate::split::trim_end(s);
        assert(s.subrange(0, t.len() as int) =~= p.subrange(0, t.len() as int));
        assert forall|i: int| t.len() <= i < s.len() implies is_space(#[trigger] s[i]) by {
            if i < p.len() {
                assert(p[i] == s[i]);
            }
        }
    } else {
        assert(s.subrange(0, s.len() as int) =~= s);
    }
}

proof fn lemma_trim_start(s: Seq<char>)
    ensures
        crate::split::trim_start(s).len() <= s.len(),
        crate::split::trim_start(s) == s.skip(s.len() - crate::split::trim_start(s).len()),
        crate::split::trim_start(s).len() > 0 ==> !is_space(crate::split::trim_start(s)[0]),
        forall|i: int|
            0 <= i < s.len() - crate::split::trim_start(s).len() ==> is_space(#[trigger] s[i]),
    decreases s.len(),
{
    if s.len() > 0 && is_space(s[0]) {
        let p = s.drop_first();
        lemma_trim_start(p);
        let t = crate::split::trim_start(s);
        assert(p.skip(p.len() - t.len()) =~= s.skip(s.len() - t.len()));
        assert forall|i: int| 0 <= i < s.len() - t.len() implies is_space(#[trigger] s[i]) by {
            if i > 0 {
                assert(p[i - 1] == s[i]);
            }
        }
    } else {
        assert(s.skip(0) =~= s);
    }
}

/// A trimmed text is what lies between the white space at the two ends, and itself neither starts nor ends with any.
pub proof fn law_trim_takes_white_space_off_both_ends(s: Seq<char>)
    ensures
        exists|a: int, b: int|
            0 <= a <= b <= s.len() && trim(s) == #[trigger] s.subrange(a, b) && (forall|i: int|
                0 <= i < a || b <= i < s.len() ==> is_space(#[trigger] s[i])),
        trim(s).len() > 0 ==> !is_space(trim(s)[0]) && !is_space(trim(s).last()),
{
    let t = crate::split::trim_start(s);
    lemma_trim_start(s);
    lemma_trim_end(t);
    let r = trim(s);
    let a = s.len() - t.len();
    let b = a + r.len();
    assert(r =~= t.subrange(0, r.len() as int));
    assert(s.subrange(a, b) =~= r);
    assert forall|i: int| 0 <= i < a || b <= i < s.len() implies is_space(#[trigger] s[i]) by {
        if b <= i < s.len() {
            assert(t[i - a] == s[i]);
        }
    }
    if r.len() > 0 {
        assert(r[0] == t[0]);
    }
}

// ---------------------------------------------------------------- order

/// One text comes before another where it is its beginning, or has the smaller character at the first place at which
/// they differ.
pub proof fn law_order_is_by_first_difference(a: Seq<char>, b: Seq<char>)
    ensures
        crate::order::before(a, b) <==> (a.len() < b.len() && a == b.take(a.len() as int)) || exists|k: int|
            0 <= k < a.len() && k < b.len() && a[k] < b[k] && #[trigger] a.take(k) == b.take(k),
    decreases a.len(),
{
    if a.len() > 0 && b.len() > 0 {
        let (x, y) = (a.drop_first(), b.drop_first());
        law_order_is_by_first_difference(x, y);
        if a[0] == b[0] {
            if crate::order::before(x, y) {
                if x.len() < y.len() && x == y.take(x.len() as int) {
                    assert(a =~= b.take(a.len() as int)) by {
                        assert forall|i: int| 0 <= i < a.len() implies a[i] == b[i] by {
                            if i > 0 {
                                assert(x[i - 1] == y.take(x.len() as int)[i - 1]);
                            }
                        }
                    }
                } else {
                    let k = choose|k: int|
                        0 <= k < x.len() && k < y.len() && x[k] < y[k] && #[trigger] x.take(k)
                            == y.take(k);
                    assert(a.take(k + 1) =~= b.take(k + 1)) by {
                        assert forall|i: int| 0 <= i < k + 1 implies a[i] == b[i] by {
                            if i > 0 {
                                assert(x.take(k)[i - 1] == y.take(k)[i - 1]);
                            }
                        }
                    }
                }
            }
            if a.len() < b.len() && a == b.take(a.len() as int) {
                assert(x =~= y.take(x.len() as int)) by {
                    assert forall|i: int| 0 <= i < x.len() implies x[i] == y[i] by {
                        assert(a[i + 1] == b.take(a.len() as int)[i + 1]);
                    }
                }
            }
            if exists|k: int|
                0 <= k < a.len() && k < b.len() && a[k] < b[k] && #[trigger] a.take(k) == b.take(k) {
                let k = choose|k: int|
                    0 <= k < a.len() && k < b.len() && a[k] < b[k] && #[trigger] a.take(k) == b.take(k);
                assert(k > 0);
                assert(x.take(k - 1) =~= y.take(k - 1)) by {
                    assert forall|i: int| 0 <= i < k - 1 implies x[i] == y[i] by {
                        assert(a.take(k)[i + 1] == b.take(k)[i + 1]);
                    }
                }
            }
        } else {
            if a[0] < b[0] {
                assert(a.take(0) =~= b.take(0));
            }
            if a == b.take(a.len() as int) {
                assert(a[0] == b.take(a.len() as int)[0]);
            }
            if exists|k: int|
                0 <= k < a.len() && k < b.len() && a[k] < b[k] && #[trigger] a.take(k) == b.take(k) {
                let k = choose|k: int|
                    0 <= k < a.len() && k < b.len() && a[k] < b[k] && #[trigger] a.take(k) == b.take(k);
                if k > 0 {
                    assert(a.take(k)[0] == b.take(k)[0]);
                }
            }
        }
    } else if a.len() == 0 && b.len() > 0 {
        assert(a =~= b.take(0));
    }
}

// ---------------------------------------------------------------- names

proof fn lemma_last_of(s: Seq<char>, c: char, d: char)
    ensures
        crate::text::last_of(s, c, d) matches Some(i) ==> 0 <= i < s.len() && (s[i] == c || s[i] == d)
            && forall|j: int| i < j < s.len() ==> #[trigger] s[j] != c && s[j] != d,
        crate::text::last_of(s, c, d) is None ==> forall|j: int|
            0 <= j < s.len() ==> #[trigger] s[j] != c && s[j] != d,
    decreases s.len(),
{
    if s.len() > 0 && !(s.last() == c || s.last() == d) {
        let p = s.drop_last();
        lemma_last_of(p, c, d);
        match crate::text::last_of(s, c, d) {
            Some(i) => {
                assert forall|j: int| i < j < s.len() implies #[trigger] s[j] != c && s[j] != d by {
                    if j < p.len() {
                        assert(p[j] == s[j]);
                    }
                }
            },
            None => {
                assert forall|j: int| 0 <= j < s.len() implies #[trigger] s[j] != c && s[j] != d by {
                    if j < p.len() {
                        assert(p[j] == s[j]);
                    }
                }
            },
        }
    }
}

/// What follows the last separator.
pub proof fn law_after_last_is_the_rest(a: Seq<char>, x: char, b: Seq<char>, c: char, d: char)
    requires
        x == c || x == d,
        !b.contains(c),
        !b.contains(d),
    ensures
        after_last(a.push(x) + b, c, d) == b,
        after_last(b, c, d) == b,
{
    let s = a.push(x) + b;
    lemma_last_of(s, c, d);
    lemma_last_of(b, c, d);
    assert(s[a.len() as int] == x);
    match crate::text::last_of(s, c, d) {
        Some(i) => {
            if i > a.len() {
                assert(b[i - a.len() - 1] == s[i]);
            }
            assert(i == a.len());
            assert(s.skip(i + 1) =~= b);
        },
        None => {},
    }
    if let Some(i) = crate::text::last_of(b, c, d) {
        assert(b.contains(b[i]));
    }
}

/// The bare name of a signature is what follows the kind and the container.
pub proof fn law_bare_name_drops_kind_and_container(kind: Seq<char>, container: Seq<char>, name: Seq<char>)
    requires
        !name.contains(':') && !name.contains('.') && !name.contains('#'),
        !container.contains(':'),
        name.len() > 0 && !is_space(name[0]) && !is_space(name.last()),
    ensures
        crate::names::bare_name(kind + ":"@ + name) == name,
        crate::names::bare_name(kind + ":"@ + container + "."@ + name) == name,
        crate::names::bare_name(kind + ":"@ + container + "#"@ + name) == name,
        crate::names::bare_name(name) == name,
{
    reveal_strlit(":");
    reveal_strlit(".");
    reveal_strlit("#");
    lemma_trim_nothing(name);
    law_after_last_is_the_rest(kind, ':', name, ':', ':');
    assert(kind + ":"@ + name =~= kind.push(':') + name);
    law_after_last_is_the_rest(kind, '.', name, '.', '#');
    let dotted = container + "."@ + name;
    let hashed = container + "#"@ + name;
    assert(!dotted.contains(':')) by {
        if dotted.contains(':') {
            let i = choose|i: int| 0 <= i < dotted.len() && dotted[i] == ':';
            if i < container.len() {
                assert(container[i] == ':');
            } else if i > container.len() {
                assert(name[i - container.len() - 1] == ':');
            }
        }
    }
    assert(!hashed.contains(':')) by {
        if hashed.contains(':') {
            let i = choose|i: int| 0 <= i < hashed.len() && hashed[i] == ':';
            if i < container.len() {
                assert(container[i] == ':');
            } else if i > container.len() {
                assert(name[i - container.len() - 1] == ':');
            }
        }
    }
    law_after_last_is_the_rest(kind, ':', dotted, ':', ':');
    law_after_last_is_the_rest(kind, ':', hashed, ':', ':');
    assert(kind + ":"@ + container + "."@ + name =~= kind.push(':') + dotted);
    assert(kind + ":"@ + container + "#"@ + name =~= kind.push(':') + hashed);
    law_after_last_is_the_rest(container, '.', name, '.', '#');
    law_after_last_is_the_rest(container, '#', name, '.', '#');
    assert(dotted =~= container.push('.') + name);
    assert(hashed =~= container.push('#') + name);
}

proof fn lemma_trim_nothing(s: Seq<char>)
    requires
        s.len() > 0,
        !is_space(s[0]),
        !is_space(s.last()),
    ensures
        trim(s) == s,
{
}

// ---------------------------------------------------------------- recorded answers

/// A node is found by its id wherever it stands, and the first of several.
pub proof fn law_nodes_are_found_by_id(store: Store, i: int)
    requires
        0 <= i < store.nodes@.len(),
        forall|j: int| 0 <= j < i ==> (#[trigger] store.nodes@[j]).id != store.nodes@[i].id,
    ensures
        store.node(store.nodes@[i].id) == Some(store.nodes@[i]),
{
    lemma_find_first(store.nodes@, i);
}

proof fn lemma_find_first(nodes: Seq<Node>, i: int)
    requires
        0 <= i < nodes.len(),
        forall|j: int| 0 <= j < i ==> (#[trigger] nodes[j]).id != nodes[i].id,
    ensures
        crate::store::find_node(nodes, nodes[i].id) == Some(nodes[i]),
    decreases nodes.len(),
{
    let p = nodes.drop_last();
    if i < p.len() {
        assert(p[i] == nodes[i]);
        assert forall|j: int| 0 <= j < i implies (#[trigger] p[j]).id != p[i].id by {
            assert(p[j] == nodes[j]);
        }
        lemma_find_first(p, i);
    } else {
        crate::store::lemma_find_node(p, nodes[i].id);
        if let Some(n) = crate::store::find_node(p, nodes[i].id) {
            let j = choose|j: int| 0 <= j < p.len() && p[j] == n;
            assert(nodes[j].id == nodes[i].id);
        }
    }
}

/// What was recorded last for a search term is the answer for it.
pub proof fn law_recorded_searches_are_found(store: Store, i: int)
    requires
        0 <= i < store.name_searches@.len(),
        forall|j: int|
            i < j < store.name_searches@.len() ==> (#[trigger] store.name_searches@[j]).term@
                != store.name_searches@[i].term@,
    ensures
        store.name_searches@[i].hits matches Some(v) ==> store.name_hits(
            store.name_searches@[i].term@,
        ) == Some(v@),
        store.name_searches@[i].hits is None ==> store.name_hits(store.name_searches@[i].term@) is None,
{
    lemma_hits_of(store.name_searches@, i);
}

proof fn lemma_hits_of(v: Seq<crate::store::NameSearch>, i: int)
    requires
        0 <= i < v.len(),
        forall|j: int| i < j < v.len() ==> (#[trigger] v[j]).term@ != v[i].term@,
    ensures
        crate::store::hits_of(v, v[i].term@) == (match v[i].hits {
            Some(h) => Some(h@),
            None => None,
        }),
    decreases v.len(),
{
    if i < v.len() - 1 {
        let p = v.drop_last();
        assert(v[v.len() - 1].term@ != v[i].term@);
        assert forall|j: int| i < j < p.len() implies (#[trigger] p[j]).term@ != p[i].term@ by {
            assert(p[j] == v[j]);
        }
        lemma_hits_of(p, i);
    }
}

/// What was recorded last for a signature and a path is the answer for them.
pub proof fn law_recorded_lookups_are_found(store: Store, i: int, path: Option<Seq<char>>)
    requires
        0 <= i < store.exact_lookups@.len(),
        crate::store::same_opt(store.exact_lookups@[i].path, path),
        forall|j: int|
            i < j < store.exact_lookups@.len() ==> (#[trigger] store.exact_lookups@[j]).signature@
                != store.exact_lookups@[i].signature@,
    ensures
        store.exact_hits(store.exact_lookups@[i].signature@, path) == store.exact_lookups@[i].hits@,
{
    lemma_exact_of(store.exact_lookups@, i, path);
}

proof fn lemma_exact_of(v: Seq<crate::store::ExactLookup>, i: int, path: Option<Seq<char>>)
    requires
        0 <= i < v.len(),
        crate::store::same_opt(v[i].path, path),
        forall|j: int| i < j < v.len() ==> (#[trigger] v[j]).signature@ != v[i].signature@,
    ensures
        crate::store::exact_of(v, v[i].signature@, path) == v[i].hits@,
    decreases v.len(),
{
    if i < v.len() - 1 {
        let p = v.drop_last();
        assert(v[v.len() - 1].signature@ != v[i].signature@);
        assert forall|j: int| i < j < p.len() implies (#[trigger] p[j]).signature@ != p[i].signature@ by {
            assert(p[j] == v[j]);
        }
        lemma_exact_of(p, i, path);
    }
}

/// The first value that is recorded for a key is its value, and a key without one has none.
pub proof fn law_recorded_values_are_found(store: Store, key: Seq<char>)
    ensures
        forall|i: int|
            0 <= i < store.meta@.len() && (#[trigger] store.meta@[i]).0@ == key && (forall|j: int|
                0 <= j < i ==> (#[trigger] store.meta@[j]).0@ != key) ==> store.meta_value(key) == Some(
                store.meta@[i].1@,
            ),
        (forall|i: int| 0 <= i < store.meta@.len() ==> (#[trigger] store.meta@[i]).0@ != key)
            ==> store.meta_value(key) is None,
{
    lemma_meta_of(store.meta@, key);
}

proof fn lemma_meta_of(v: Seq<(String, String)>, key: Seq<char>)
    ensures
        forall|i: int|
            0 <= i < v.len() && (#[trigger] v[i]).0@ == key && (forall|j: int|
                0 <= j < i ==> (#[trigger] v[j]).0@ != key) ==> crate::store::meta_of(v, key) == Some(
                v[i].1@,
            ),
        (forall|i: int| 0 <= i < v.len() ==> (#[trigger] v[i]).0@ != key) ==> crate::store::meta_of(
            v,
            key,
        ) is None,
    decreases v.len(),
{
    if v.len() > 0 {
        let p = v.drop_last();
        lemma_meta_of(p, key);
        assert forall|i: int| 0 <= i < p.len() implies p[i] == v[i] by {}
        if forall|i: int| 0 <= i < v.len() ==> (#[trigger] v[i]).0@ != key {
            assert forall|i: int| 0 <= i < p.len() implies (#[trigger] p[i]).0@ != key by {
                assert(v[i].0@ != key);
            }
            assert(v[v.len() - 1].0@ != key);
        }
        assert forall|i: int|
            0 <= i < v.len() && (#[trigger] v[i]).0@ == key && (forall|j: int|
                0 <= j < i ==> (#[trigger] v[j]).0@ != key) implies crate::store::meta_of(v, key) == Some(
            v[i].1@,
        ) by {
            if i < p.len() {
                assert(p[i].0@ == key);
                assert forall|j: int| 0 <= j < i implies (#[trigger] p[j]).0@ != key by {
                    assert(v[j].0@ != key);
                }
            } else {
                assert forall|j: int| 0 <= j < p.len() implies (#[trigger] p[j]).0@ != key by {
                    assert(v[j].0@ != key);
                }
            }
        }
    }
}

} // verus!
