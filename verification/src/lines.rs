//! Lines of an answer.

use vstd::prelude::*;

verus! {

/// The text holds the part somewhere.
pub open spec fn holds(t: Seq<char>, part: Seq<char>) -> bool {
    exists|i: int|
        0 <= i && i + part.len() <= t.len() && #[trigger] t.subrange(i, i + part.len()) == part
}

/// The part stands at `i` in the text, from the start of a line to the end of one.
pub open spec fn line_at(t: Seq<char>, l: Seq<char>, i: int) -> bool {
    &&& 0 <= i
    &&& i + l.len() <= t.len()
    &&& t.subrange(i, i + l.len()) == l
    &&& i == 0 || t[i - 1] == '\n'
    &&& i + l.len() == t.len() || t[i + l.len()] == '\n'
}

/// The text holds the line.
pub open spec fn has_line(t: Seq<char>, l: Seq<char>) -> bool {
    exists|i: int| line_at(t, l, i)
}

pub proof fn lemma_holds_itself(a: Seq<char>, part: Seq<char>, b: Seq<char>)
    ensures
        holds(a + part + b, part),
        holds(part + b, part),
        holds(a + part, part),
        holds(part, part),
{
    let t = a + part + b;
    assert(t.subrange(a.len() as int, a.len() as int + part.len()) =~= part);
    assert((part + b).subrange(0int, 0int + part.len()) =~= part);
    assert((a + part).subrange(a.len() as int, a.len() as int + part.len()) =~= part);
    assert(part.subrange(0int, 0int + part.len()) =~= part);
}

pub proof fn lemma_holds_around(a: Seq<char>, t: Seq<char>, b: Seq<char>, part: Seq<char>)
    requires
        holds(t, part),
    ensures
        holds(a + t + b, part),
        holds(a + t, part),
        holds(t + b, part),
{
    let i = choose|i: int|
        0 <= i && i + part.len() <= t.len() && #[trigger] t.subrange(i, i + part.len()) == part;
    let n = part.len();
    let s = t.subrange(i, i + n);
    assert((a + t + b).subrange(a.len() + i, a.len() + i + n) =~= s);
    assert((a + t).subrange(a.len() + i, a.len() + i + n) =~= s);
    assert((t + b).subrange(i, i + n) =~= s);
}

proof fn lemma_line_before(a: Seq<char>, b: Seq<char>, l: Seq<char>)
    requires
        has_line(a, l),
    ensures
        has_line(a + "\n"@ + b, l),
{
    reveal_strlit("\n");
    let i = choose|i: int| line_at(a, l, i);
    let t = a + "\n"@ + b;
    assert(t.subrange(i, i + l.len()) =~= a.subrange(i, i + l.len()));
    assert(line_at(t, l, i));
}

proof fn lemma_line_last(a: Seq<char>, b: Seq<char>)
    ensures
        has_line(a + "\n"@ + b, b),
{
    reveal_strlit("\n");
    let t = a + "\n"@ + b;
    let i = a.len() as int + 1;
    assert(t.subrange(i, i + b.len()) =~= b);
    assert(line_at(t, b, i));
}

/// A joined list has each of its members as a line.
pub proof fn lemma_join_has_line(v: Seq<Seq<char>>, k: int)
    requires
        0 <= k < v.len(),
    ensures
        has_line(crate::text::join(v, "\n"@), v[k]),
    decreases v.len(),
{
    if v.len() == 1 {
        assert(v[0].subrange(0int, 0int + v[0].len()) =~= v[0]);
        assert(line_at(v[0], v[0], 0));
    } else {
        let p = v.drop_last();
        if k < p.len() {
            lemma_join_has_line(p, k);
            assert(p[k] == v[k]);
            lemma_line_before(crate::text::join(p, "\n"@), v.last(), v[k]);
        } else {
            lemma_line_last(crate::text::join(p, "\n"@), v.last());
        }
    }
}

/// A joined list holds each of its members, whatever stands between them.
pub proof fn lemma_join_holds(v: Seq<Seq<char>>, sep: Seq<char>, k: int)
    requires
        0 <= k < v.len(),
    ensures
        holds(crate::text::join(v, sep), v[k]),
    decreases v.len(),
{
    if v.len() == 1 {
        lemma_holds_itself(Seq::empty(), v[0], Seq::empty());
    } else {
        let p = v.drop_last();
        let j = crate::text::join(p, sep);
        if k < p.len() {
            lemma_join_holds(p, sep, k);
            assert(p[k] == v[k]);
            lemma_holds_around(Seq::empty(), j, sep, v[k]);
            lemma_holds_around(Seq::empty(), j + sep, v.last(), v[k]);
        } else {
            lemma_holds_itself(j + sep, v.last(), Seq::empty());
        }
    }
}

/// What a part holds, the whole holds.
pub proof fn lemma_holds_within(t: Seq<char>, part: Seq<char>, x: Seq<char>)
    requires
        holds(t, part),
        holds(part, x),
    ensures
        holds(t, x),
{
    let i = choose|i: int|
        0 <= i && i + part.len() <= t.len() && #[trigger] t.subrange(i, i + part.len()) == part;
    let j = choose|j: int|
        0 <= j && j + x.len() <= part.len() && #[trigger] part.subrange(j, j + x.len()) == x;
    assert(t.subrange(i + j, i + j + x.len()) =~= part.subrange(j, j + x.len()));
}

} // verus!
