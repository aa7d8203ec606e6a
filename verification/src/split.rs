//! Splitting, trimming and letter case.

use vstd::prelude::*;

use crate::text::{chars_of, lemma_views_push, nonempty, string_of, views};

verus! {

/// The parts of `s` between the characters `c` and `d`: each of them opens a new, empty part,
/// every other character extends the last part.
pub open spec fn split(s: Seq<char>, c: char, d: char) -> Seq<Seq<char>>
    decreases s.len(),
{
    if s.len() == 0 {
        seq![Seq::empty()]
    } else {
        let r = split(s.drop_last(), c, d);
        if s.last() == c || s.last() == d {
            r.push(Seq::empty())
        } else {
            r.drop_last().push(r.last().push(s.last()))
        }
    }
}

pub fn split_on(s: &str, c: char, d: char) -> (parts: Vec<String>)
    ensures
        views(parts@) == split(s@, c, d),
        parts@.len() >= 1,
{
    let v = chars_of(s);
    let mut parts: Vec<String> = Vec::new();
    let mut cur = String::new();
    let mut i: usize = 0;
    assert(v@.take(0) == Seq::<char>::empty());
    assert(views(parts@).push(cur@) =~= seq![Seq::<char>::empty()]);
    while i < v.len()
        invariant
            i <= v@.len(),
            views(parts@).push(cur@) == split(v@.take(i as int), c, d),
        decreases v@.len() - i,
    {
        let ch: char = v[i];
        let ghost before = split(v@.take(i as int), c, d);
        let ghost vp = views(parts@);
        let ghost cv = cur@;
        assert(v@.take(i + 1).drop_last() == v@.take(i as int));
        assert(before.drop_last() =~= vp);
        if ch == c || ch == d {
            proof {
                lemma_views_push(parts@, cur);
            }
            parts.push(cur);
            cur = String::new();
            assert(views(parts@).push(cur@) =~= before.push(Seq::empty()));
        } else {
            cur.push(ch);
            assert(views(parts@).push(cur@) =~= before.drop_last().push(before.last().push(ch)));
        }
        i += 1;
    }
    assert(v@.take(i as int) == v@);
    proof {
        lemma_views_push(parts@, cur);
    }
    parts.push(cur);
    parts
}

/// The line text of `l`: without the carriage return that a line feed ended.
pub open spec fn unreturned(l: Seq<char>) -> Seq<char> {
    if l.len() > 0 && l.last() == '\r' {
        l.drop_last()
    } else {
        l
    }
}

/// The lines of `s`: each ends at a line feed (with the carriage return before it, if any) or at
/// the end of the text; a text that ends in a line feed has no empty line behind it.
pub open spec fn lines(s: Seq<char>) -> Seq<Seq<char>> {
    let p = split(s, '\n', '\n');
    let ended = Seq::new((p.len() - 1) as nat, |i: int| unreturned(p[i]));
    if p.last().len() == 0 {
        ended
    } else {
        ended.push(p.last())
    }
}

fn unreturn(l: &String) -> (r: String)
    ensures
        r@ == unreturned(l@),
{
    let v = chars_of(l.as_str());
    let n: usize = v.len();
    if n > 0 && v[n - 1] == '\r' {
        let r = string_of(&v, 0, n - 1);
        assert(r@ == l@.drop_last());
        r
    } else {
        l.clone()
    }
}

pub fn lines_of(s: &str) -> (r: Vec<String>)
    ensures
        views(r@) == lines(s@),
{
    let p = split_on(s, '\n', '\n');
    let ghost pv = split(s@, '\n', '\n');
    let n: usize = p.len();
    let mut r: Vec<String> = Vec::new();
    let mut i: usize = 0;
    while i < n - 1
        invariant
            n == p@.len(),
            n >= 1,
            i <= n - 1,
            pv == views(p@),
            views(r@) == Seq::new(i as nat, |k: int| unreturned(pv[k])),
        decreases n - i,
    {
        let l = unreturn(&p[i]);
        proof {
            lemma_views_push(r@, l);
        }
        r.push(l);
        i += 1;
        assert(views(r@) =~= Seq::new(i as nat, |k: int| unreturned(pv[k])));
    }
    assert(pv.last() == p@[n - 1]@);
    if !p[n - 1].as_str().is_empty() {
        let l = p[n - 1].clone();
        proof {
            lemma_views_push(r@, l);
        }
        r.push(l);
    }
    r
}

/// The characters with the Unicode property White_Space.
pub open spec fn is_space(c: char) -> bool {
    ||| '\u{9}' <= c <= '\u{d}'
    ||| c == ' '
    ||| c == '\u{85}'
    ||| c == '\u{a0}'
    ||| c == '\u{1680}'
    ||| '\u{2000}' <= c <= '\u{200a}'
    ||| c == '\u{2028}'
    ||| c == '\u{2029}'
    ||| c == '\u{202f}'
    ||| c == '\u{205f}'
    ||| c == '\u{3000}'
}

pub fn space(c: char) -> (r: bool)
    ensures
        r == is_space(c),
{
    ('\u{9}' <= c && c <= '\u{d}') || c == ' ' || c == '\u{85}' || c == '\u{a0}' || c == '\u{1680}'
        || ('\u{2000}' <= c && c <= '\u{200a}') || c == '\u{2028}' || c == '\u{2029}' || c
        == '\u{202f}' || c == '\u{205f}' || c == '\u{3000}'
}

/// `s` without the white space at its end.
pub open spec fn trim_end(s: Seq<char>) -> Seq<char>
    decreases s.len(),
{
    if s.len() > 0 && is_space(s.last()) {
        trim_end(s.drop_last())
    } else {
        s
    }
}

/// `s` without the white space at its start.
pub open spec fn trim_start(s: Seq<char>) -> Seq<char>
    decreases s.len(),
{
    if s.len() > 0 && is_space(s[0]) {
        trim_start(s.drop_first())
    } else {
        s
    }
}

pub open spec fn trim(s: Seq<char>) -> Seq<char> {
    trim_end(trim_start(s))
}

pub fn trim_end_of(s: &str) -> (r: String)
    ensures
        r@ == trim_end(s@),
{
    let v = chars_of(s);
    let mut n: usize = v.len();
    assert(v@.take(n as int) == v@);
    while n > 0 && space(v[n - 1])
        invariant
            n <= v@.len(),
            trim_end(v@) == trim_end(v@.take(n as int)),
        decreases n,
    {
        n -= 1;
        assert(v@.take(n + 1).drop_last() == v@.take(n as int));
    }
    let r = string_of(&v, 0, n);
    assert(r@ == v@.take(n as int));
    r
}

pub fn trim_of(s: &str) -> (r: String)
    ensures
        r@ == trim(s@),
{
    let v = chars_of(s);
    let n: usize = v.len();
    let mut i: usize = 0;
    assert(v@.skip(0) == v@);
    while i < n && space(v[i])
        invariant
            n == v@.len(),
            i <= n,
            trim_start(v@) == trim_start(v@.skip(i as int)),
        decreases n - i,
    {
        i += 1;
        assert(v@.skip(i - 1).drop_first() == v@.skip(i as int));
    }
    let r = string_of(&v, i, n);
    assert(r@ == v@.skip(i as int));
    trim_end_of(r.as_str())
}

/// `s` without the characters `c` at its end.
pub open spec fn trim_end_char(s: Seq<char>, c: char) -> Seq<char>
    decreases s.len(),
{
    if s.len() > 0 && s.last() == c {
        trim_end_char(s.drop_last(), c)
    } else {
        s
    }
}

pub fn trim_end_char_of(s: &str, c: char) -> (r: String)
    ensures
        r@ == trim_end_char(s@, c),
{
    let v = chars_of(s);
    let mut n: usize = v.len();
    assert(v@.take(n as int) == v@);
    while n > 0 && v[n - 1] == c
        invariant
            n <= v@.len(),
            trim_end_char(v@, c) == trim_end_char(v@.take(n as int), c),
        decreases n,
    {
        n -= 1;
        assert(v@.take(n + 1).drop_last() == v@.take(n as int));
    }
    let r = string_of(&v, 0, n);
    assert(r@ == v@.take(n as int));
    r
}

/// An ASCII letter or digit.
pub open spec fn is_alnum(c: char) -> bool {
    ('a' <= c && c <= 'z') || ('A' <= c && c <= 'Z') || ('0' <= c && c <= '9')
}

pub fn alnum(c: char) -> (r: bool)
    ensures
        r == is_alnum(c),
{
    ('a' <= c && c <= 'z') || ('A' <= c && c <= 'Z') || ('0' <= c && c <= '9')
}

/// The parts of `s` between characters that are no ASCII letters or digits, empty ones included.
pub open spec fn alnum_parts(s: Seq<char>) -> Seq<Seq<char>>
    decreases s.len(),
{
    if s.len() == 0 {
        seq![Seq::empty()]
    } else {
        let r = alnum_parts(s.drop_last());
        if is_alnum(s.last()) {
            r.drop_last().push(r.last().push(s.last()))
        } else {
            r.push(Seq::empty())
        }
    }
}

/// The longest runs of ASCII letters and digits.
pub open spec fn alnum_runs(s: Seq<char>) -> Seq<Seq<char>> {
    nonempty(alnum_parts(s))
}

pub fn alnum_runs_of(s: &str) -> (r: Vec<String>)
    ensures
        views(r@) == alnum_runs(s@),
{
    let v = chars_of(s);
    let mut r: Vec<String> = Vec::new();
    let mut cur = String::new();
    let mut i: usize = 0;
    assert(v@.take(0) == Seq::<char>::empty());
    assert(alnum_parts(v@.take(0)).drop_last() =~= Seq::<Seq<char>>::empty());
    assert(views(r@) =~= Seq::<Seq<char>>::empty());
    while i < v.len()
        invariant
            i <= v@.len(),
            alnum_parts(v@.take(i as int)).len() >= 1,
            views(r@) == nonempty(alnum_parts(v@.take(i as int)).drop_last()),
            cur@ == alnum_parts(v@.take(i as int)).last(),
        decreases v@.len() - i,
    {
        let ch: char = v[i];
        let ghost before = alnum_parts(v@.take(i as int));
        assert(v@.take(i + 1).drop_last() == v@.take(i as int));
        let ghost after = alnum_parts(v@.take(i + 1));
        if alnum(ch) {
            assert(after.drop_last() =~= before.drop_last());
            cur.push(ch);
        } else {
            assert(after.drop_last() =~= before);
            if !cur.as_str().is_empty() {
                proof {
                    lemma_views_push(r@, cur);
                }
                r.push(cur);
            }
            cur = String::new();
        }
        i += 1;
    }
    assert(v@.take(i as int) == v@);
    if !cur.as_str().is_empty() {
        proof {
            lemma_views_push(r@, cur);
        }
        r.push(cur);
    }
    r
}

/// The parts of `s` between white space, empty ones included.
pub open spec fn space_parts(s: Seq<char>) -> Seq<Seq<char>>
    decreases s.len(),
{
    if s.len() == 0 {
        seq![Seq::empty()]
    } else {
        let r = space_parts(s.drop_last());
        if is_space(s.last()) {
            r.push(Seq::empty())
        } else {
            r.drop_last().push(r.last().push(s.last()))
        }
    }
}

/// The words of `s`: its longest runs without white space.
pub open spec fn words(s: Seq<char>) -> Seq<Seq<char>> {
    nonempty(space_parts(s))
}

pub fn words_of(s: &str) -> (r: Vec<String>)
    ensures
        views(r@) == words(s@),
{
    let v = chars_of(s);
    let mut r: Vec<String> = Vec::new();
    let mut cur = String::new();
    let mut i: usize = 0;
    assert(v@.take(0) == Seq::<char>::empty());
    assert(space_parts(v@.take(0)).drop_last() =~= Seq::<Seq<char>>::empty());
    assert(views(r@) =~= Seq::<Seq<char>>::empty());
    while i < v.len()
        invariant
            i <= v@.len(),
            space_parts(v@.take(i as int)).len() >= 1,
            views(r@) == nonempty(space_parts(v@.take(i as int)).drop_last()),
            cur@ == space_parts(v@.take(i as int)).last(),
        decreases v@.len() - i,
    {
        let ch: char = v[i];
        let ghost before = space_parts(v@.take(i as int));
        assert(v@.take(i + 1).drop_last() == v@.take(i as int));
        let ghost after = space_parts(v@.take(i + 1));
        if space(ch) {
            assert(after.drop_last() =~= before);
            if !cur.as_str().is_empty() {
                proof {
                    lemma_views_push(r@, cur);
                }
                r.push(cur);
            }
            cur = String::new();
        } else {
            assert(after.drop_last() =~= before.drop_last());
            cur.push(ch);
        }
        i += 1;
    }
    assert(v@.take(i as int) == v@);
    if !cur.as_str().is_empty() {
        proof {
            lemma_views_push(r@, cur);
        }
        r.push(cur);
    }
    r
}

/// `c` with an ASCII capital made small.
pub open spec fn lower_char(c: char) -> char {
    if 'A' <= c <= 'Z' {
        (c as u32 + 32) as char
    } else {
        c
    }
}

pub open spec fn lower(s: Seq<char>) -> Seq<char> {
    Seq::new(s.len(), |i: int| lower_char(s[i]))
}

pub fn lower_char_of(c: char) -> (r: char)
    ensures
        r == lower_char(c),
{
    if 'A' <= c && c <= 'Z' {
        ((c as u8) + 32) as char
    } else {
        c
    }
}

pub fn lower_of(s: &str) -> (r: String)
    ensures
        r@ == lower(s@),
{
    let v = chars_of(s);
    let mut r = String::new();
    let mut i: usize = 0;
    while i < v.len()
        invariant
            v@ == s@,
            i <= v@.len(),
            r@ == lower(s@).take(i as int),
        decreases v@.len() - i,
    {
        r.push(lower_char_of(v[i]));
        i += 1;
        assert(lower(s@).take(i as int) =~= lower(s@).take(i - 1).push(lower_char(s@[i - 1])));
    }
    assert(lower(s@).take(i as int) =~= lower(s@));
    r
}

} // verus!
