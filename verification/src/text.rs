//! Text primitives: every function works on the character sequence of a string.

use vstd::prelude::*;

verus! {

/// Appends one character to a string.
pub assume_specification[ String::push ](s: &mut String, c: char)
    ensures
        final(s)@ == old(s)@.push(c),
;

/// The characters of `s` as a vector.
pub fn chars_of(s: &str) -> (v: Vec<char>)
    ensures
        v@ == s@,
{
    let mut v: Vec<char> = Vec::new();
    for c in it: s.chars()
        invariant
            v@ == it.seq().take(it.index() as int),
            it.seq() == s@,
    {
        v.push(c);
    }
    assert(v@ == s@);
    v
}

/// The string made of the characters `v[from..to]`.
pub fn string_of(v: &Vec<char>, from: usize, to: usize) -> (s: String)
    requires
        from <= to <= v@.len(),
    ensures
        s@ == v@.subrange(from as int, to as int),
{
    let mut s = String::new();
    let mut i: usize = from;
    while i < to
        invariant
            from <= i <= to <= v@.len(),
            s@ == v@.subrange(from as int, i as int),
        decreases to - i,
    {
        s.push(v[i]);
        i += 1;
        assert(v@.subrange(from as int, i as int) == v@.subrange(from as int, i - 1).push(
            v@[i - 1],
        ));
    }
    s
}

/// Whether two strings hold the same characters.
pub fn same(a: &str, b: &str) -> (r: bool)
    ensures
        r == (a@ == b@),
{
    a.to_owned().eq(&b.to_owned())
}

// ---------------------------------------------------------------- sequences of strings

/// The character sequences of a list of strings.
pub open spec fn views(v: Seq<String>) -> Seq<Seq<char>> {
    Seq::new(v.len(), |i: int| v[i]@)
}

pub proof fn lemma_views_push(v: Seq<String>, s: String)
    ensures
        views(v.push(s)) == views(v).push(s@),
{
    assert(views(v.push(s)) =~= views(v).push(s@));
}

/// The parts in order, with `sep` between neighbours.
pub open spec fn join(parts: Seq<Seq<char>>, sep: Seq<char>) -> Seq<char>
    decreases parts.len(),
{
    if parts.len() == 0 {
        Seq::empty()
    } else if parts.len() == 1 {
        parts[0]
    } else {
        join(parts.drop_last(), sep) + sep + parts.last()
    }
}

pub fn join_strings(parts: &Vec<String>, sep: &str) -> (s: String)
    ensures
        s@ == join(views(parts@), sep@),
{
    let mut s = String::new();
    let mut i: usize = 0;
    let ghost all = views(parts@);
    while i < parts.len()
        invariant
            i <= parts@.len(),
            all == views(parts@),
            s@ == join(all.take(i as int), sep@),
        decreases parts@.len() - i,
    {
        if i > 0 {
            s.append(sep);
        }
        s.append(parts[i].as_str());
        i += 1;
        assert(all.take(i as int).drop_last() == all.take(i - 1));
        if i == 1 {
            assert(all.take(0) == Seq::<Seq<char>>::empty());
        }
    }
    assert(all.take(i as int) == all);
    s
}

/// Whether `s` is in the list.
pub fn list_has(v: &Vec<String>, s: &str) -> (r: bool)
    ensures
        r == views(v@).contains(s@),
{
    let mut i: usize = 0;
    while i < v.len()
        invariant
            i <= v@.len(),
            forall|j: int| 0 <= j < i ==> #[trigger] views(v@)[j] != s@,
        decreases v@.len() - i,
    {
        assert(views(v@)[i as int] == v@[i as int]@);
        if same(v[i].as_str(), s) {
            return true;
        }
        i += 1;
    }
    false
}

/// Whether two lists hold the same texts in the same order.
pub fn same_list(a: &Vec<String>, b: &Vec<String>) -> (r: bool)
    ensures
        r == (views(a@) == views(b@)),
{
    if a.len() != b.len() {
        assert(views(a@).len() != views(b@).len());
        return false;
    }
    let mut i: usize = 0;
    while i < a.len()
        invariant
            a@.len() == b@.len(),
            i <= a@.len(),
            forall|j: int| 0 <= j < i ==> #[trigger] views(a@)[j] == views(b@)[j],
        decreases a@.len() - i,
    {
        if !same(a[i].as_str(), b[i].as_str()) {
            assert(views(a@)[i as int] != views(b@)[i as int]);
            return false;
        }
        assert(views(a@)[i as int] == views(b@)[i as int]);
        i += 1;
    }
    assert(views(a@) =~= views(b@));
    true
}

/// The texts that a test holds of, in order.
pub open spec fn chosen(v: Seq<Seq<char>>, p: spec_fn(Seq<char>) -> bool) -> Seq<Seq<char>>
    decreases v.len(),
{
    if v.len() == 0 {
        Seq::empty()
    } else if p(v.last()) {
        chosen(v.drop_last(), p).push(v.last())
    } else {
        chosen(v.drop_last(), p)
    }
}

/// Keeps the texts that a test holds of.
pub(crate) fn choose_strings<F: Fn(&String) -> bool>(
    v: &Vec<String>,
    f: F,
    Ghost(p): Ghost<spec_fn(Seq<char>) -> bool>,
) -> (r: Vec<String>)
    requires
        forall|s: &String| call_requires(f, (s,)),
        forall|s: &String, b: bool| #[trigger] call_ensures(f, (s,), b) ==> b == p(s@),
    ensures
        views(r@) == chosen(views(v@), p),
{
    let mut r: Vec<String> = Vec::new();
    let ghost all = views(v@);
    let mut i: usize = 0;
    assert(views(r@) =~= chosen(all.take(0), p));
    while i < v.len()
        invariant
            all == views(v@),
            i <= v@.len(),
            forall|s: &String| call_requires(f, (s,)),
            forall|s: &String, b: bool| #[trigger] call_ensures(f, (s,), b) ==> b == p(s@),
            views(r@) == chosen(all.take(i as int), p),
        decreases v@.len() - i,
    {
        assert(all.take(i + 1).drop_last() =~= all.take(i as int));
        assert(all.take(i + 1).last() == v@[i as int]@);
        if f(&v[i]) {
            proof {
                lemma_views_push(r@, v@[i as int]);
            }
            r.push(v[i].clone());
        }
        i += 1;
    }
    assert(all.take(i as int) =~= all);
    r
}

/// A choice keeps exactly the texts that the test holds of.
pub proof fn lemma_chosen(v: Seq<Seq<char>>, p: spec_fn(Seq<char>) -> bool)
    ensures
        forall|t: Seq<char>| #[trigger] chosen(v, p).contains(t) <==> v.contains(t) && p(t),
    decreases v.len(),
{
    if v.len() > 0 {
        let q = v.drop_last();
        lemma_chosen(q, p);
        assert(v =~= q.push(v.last()));
        assert forall|t: Seq<char>| #[trigger] chosen(v, p).contains(t) <==> v.contains(t) && p(
            t,
        ) by {
            crate::store::lemma_push_contains(q, v.last(), t);
            crate::store::lemma_push_contains(chosen(q, p), v.last(), t);
            assert(chosen(q, p).contains(t) <==> q.contains(t) && p(t));
        }
    }
}

/// The entries that are not empty, in order.
pub open spec fn nonempty(parts: Seq<Seq<char>>) -> Seq<Seq<char>>
    decreases parts.len(),
{
    if parts.len() == 0 {
        Seq::empty()
    } else if parts.last().len() == 0 {
        nonempty(parts.drop_last())
    } else {
        nonempty(parts.drop_last()).push(parts.last())
    }
}

// ---------------------------------------------------------------- concatenation

pub fn cat2(a: &str, b: &str) -> (s: String)
    ensures
        s@ == a@ + b@,
{
    let mut s = a.to_owned();
    s.append(b);
    s
}

pub fn cat3(a: &str, b: &str, c: &str) -> (s: String)
    ensures
        s@ == a@ + b@ + c@,
{
    let mut s = cat2(a, b);
    s.append(c);
    s
}

// ---------------------------------------------------------------- numbers

/// The decimal digit `d`.
pub open spec fn digit(d: nat) -> char {
    (d + 48) as char
}

/// The decimal form of `n`, without leading zeros.
pub open spec fn dec(n: nat) -> Seq<char>
    decreases n,
{
    if n < 10 {
        seq![digit(n)]
    } else {
        dec(n / 10).push(digit(n % 10))
    }
}

pub(crate) fn digit_char(d: u8) -> (c: char)
    requires
        d < 10,
    ensures
        c == digit(d as nat),
{
    (d + 48) as char
}

pub fn dec_u64(n: u64) -> (s: String)
    ensures
        s@ == dec(n as nat),
    decreases n,
{
    if n < 10 {
        let mut s = String::new();
        s.push(digit_char(n as u8));
        assert(s@ == dec(n as nat));
        s
    } else {
        let mut s = dec_u64(n / 10);
        s.push(digit_char((n % 10) as u8));
        s
    }
}

pub fn dec_usize(n: usize) -> (s: String)
    ensures
        s@ == dec(n as nat),
{
    dec_u64(n as u64)
}

pub fn dec_u32(n: u32) -> (s: String)
    ensures
        s@ == dec(n as nat),
{
    dec_u64(n as u64)
}

// ---------------------------------------------------------------- searching

/// `p` stands in `s` at position `i`.
pub open spec fn matches_at(s: Seq<char>, p: Seq<char>, i: int) -> bool {
    0 <= i && i + p.len() <= s.len() && s.subrange(i, i + p.len()) == p
}

/// The first position at or after `i` where `p` stands in `s`.
pub open spec fn find_from(s: Seq<char>, p: Seq<char>, i: int) -> Option<int>
    decreases s.len() + 1 - i,
{
    if i < 0 || i + p.len() > s.len() {
        None
    } else if matches_at(s, p, i) {
        Some(i)
    } else {
        find_from(s, p, i + 1)
    }
}

pub open spec fn contains(s: Seq<char>, p: Seq<char>) -> bool {
    find_from(s, p, 0) is Some
}

pub open spec fn starts_with(s: Seq<char>, p: Seq<char>) -> bool {
    matches_at(s, p, 0)
}

pub open spec fn ends_with(s: Seq<char>, p: Seq<char>) -> bool {
    matches_at(s, p, s.len() - p.len())
}

/// A search finds nothing exactly where the pattern stands nowhere, and else the first place.
pub proof fn lemma_find_from(s: Seq<char>, p: Seq<char>, i: int)
    requires
        0 <= i,
    ensures
        find_from(s, p, i) is None ==> forall|j: int| i <= j ==> !matches_at(s, p, j),
        find_from(s, p, i) matches Some(k) ==> i <= k && matches_at(s, p, k) && forall|j: int|
            i <= j < k ==> !matches_at(s, p, j),
    decreases s.len() + 1 - i,
{
    if i + p.len() <= s.len() && !matches_at(s, p, i) {
        lemma_find_from(s, p, i + 1);
    }
}

/// A text holds a pattern exactly where the pattern stands at some position.
pub proof fn lemma_contains(s: Seq<char>, p: Seq<char>)
    ensures
        contains(s, p) <==> exists|j: int| matches_at(s, p, j),
{
    lemma_find_from(s, p, 0);
}

pub(crate) fn matches_at_exec(s: &Vec<char>, p: &Vec<char>, i: usize) -> (r: bool)
    requires
        i + p@.len() <= s@.len(),
    ensures
        r == matches_at(s@, p@, i as int),
{
    let n: usize = s.len();
    let mut k: usize = 0;
    while k < p.len()
        invariant
            k <= p@.len(),
            n == s@.len(),
            i + p@.len() <= n,
            forall|j: int| 0 <= j < k ==> s@[i + j] == p@[j],
        decreases p@.len() - k,
    {
        if s[i + k] != p[k] {
            assert(s@.subrange(i as int, i + p@.len())[k as int] != p@[k as int]);
            return false;
        }
        k += 1;
    }
    assert(s@.subrange(i as int, i + p@.len()) =~= p@);
    true
}

pub fn find_chars(s: &Vec<char>, p: &Vec<char>) -> (r: Option<usize>)
    ensures
        r is Some == find_from(s@, p@, 0) is Some,
        r matches Some(i) ==> find_from(s@, p@, 0) == Some(i as int) && i + p@.len() <= s@.len(),
{
    if p.len() > s.len() {
        return None;
    }
    let last: usize = s.len() - p.len();
    let mut i: usize = 0;
    while i <= last
        invariant
            i <= last + 1,
            last + p@.len() == s@.len(),
            find_from(s@, p@, 0) == find_from(s@, p@, i as int),
        decreases last + 1 - i,
    {
        if matches_at_exec(s, p, i) {
            return Some(i);
        }
        if i == last {
            return None;
        }
        i += 1;
    }
    None
}

/// Position of the first place where `p` stands in `s`, counted in characters.
pub fn find_str(s: &str, p: &str) -> (r: Option<usize>)
    ensures
        r is Some == find_from(s@, p@, 0) is Some,
        r matches Some(i) ==> find_from(s@, p@, 0) == Some(i as int) && i + p@.len() <= s@.len(),
{
    find_chars(&chars_of(s), &chars_of(p))
}

pub fn has_str(s: &str, p: &str) -> (r: bool)
    ensures
        r == contains(s@, p@),
{
    find_str(s, p).is_some()
}

pub fn has_prefix(s: &str, p: &str) -> (r: bool)
    ensures
        r == starts_with(s@, p@),
{
    let sv = chars_of(s);
    let pv = chars_of(p);
    if pv.len() > sv.len() {
        false
    } else {
        matches_at_exec(&sv, &pv, 0)
    }
}

pub fn has_suffix(s: &str, p: &str) -> (r: bool)
    ensures
        r == ends_with(s@, p@),
{
    let sv = chars_of(s);
    let pv = chars_of(p);
    if pv.len() > sv.len() {
        false
    } else {
        matches_at_exec(&sv, &pv, sv.len() - pv.len())
    }
}

/// `s` without the prefix `p`, if it has it.
pub open spec fn after_prefix(s: Seq<char>, p: Seq<char>) -> Option<Seq<char>> {
    if starts_with(s, p) {
        Some(s.skip(p.len() as int))
    } else {
        None
    }
}

pub fn strip_prefix<'a>(s: &'a str, p: &str) -> (r: Option<&'a str>)
    ensures
        r is Some == after_prefix(s@, p@) is Some,
        r matches Some(t) ==> after_prefix(s@, p@) == Some(t@),
{
    if has_prefix(s, p) {
        let n: usize = p.unicode_len();
        let m: usize = s.unicode_len();
        let t = s.substring_char(n, m);
        assert(t@ == s@.skip(p@.len() as int));
        Some(t)
    } else {
        None
    }
}

/// Whether the character `c` occurs in `s`.
pub fn has_char(s: &str, c: char) -> (r: bool)
    ensures
        r == s@.contains(c),
{
    let v = chars_of(s);
    let mut i: usize = 0;
    while i < v.len()
        invariant
            v@ == s@,
            i <= v@.len(),
            forall|j: int| 0 <= j < i ==> v@[j] != c,
        decreases v@.len() - i,
    {
        if v[i] == c {
            assert(s@[i as int] == c);
            return true;
        }
        i += 1;
    }
    false
}

/// The position of the first `c` in `s`.
pub open spec fn first_of(s: Seq<char>, c: char) -> Option<int>
    decreases s.len(),
{
    if s.len() == 0 {
        None
    } else if first_of(s.drop_last(), c) is Some {
        first_of(s.drop_last(), c)
    } else if s.last() == c {
        Some(s.len() - 1)
    } else {
        None
    }
}

/// The position of the last character of `s` that is `c` or `d`.
pub open spec fn last_of(s: Seq<char>, c: char, d: char) -> Option<int>
    decreases s.len(),
{
    if s.len() == 0 {
        None
    } else if s.last() == c || s.last() == d {
        Some(s.len() - 1)
    } else {
        last_of(s.drop_last(), c, d)
    }
}

pub fn first_char(s: &Vec<char>, c: char) -> (r: Option<usize>)
    ensures
        r is Some == first_of(s@, c) is Some,
        r matches Some(i) ==> first_of(s@, c) == Some(i as int) && i < s@.len() && s@[i as int]
            == c,
{
    let mut r: Option<usize> = None;
    let mut i: usize = 0;
    while i < s.len()
        invariant
            i <= s@.len(),
            r is Some == first_of(s@.take(i as int), c) is Some,
            r matches Some(k) ==> first_of(s@.take(i as int), c) == Some(k as int) && k < i
                && s@[k as int] == c,
        decreases s@.len() - i,
    {
        if r.is_none() && s[i] == c {
            r = Some(i);
        }
        i += 1;
        assert(s@.take(i as int).drop_last() == s@.take(i - 1));
    }
    assert(s@.take(i as int) == s@);
    r
}

pub fn last_char(s: &Vec<char>, c: char, d: char) -> (r: Option<usize>)
    ensures
        r is Some == last_of(s@, c, d) is Some,
        r matches Some(i) ==> last_of(s@, c, d) == Some(i as int) && i < s@.len(),
{
    let mut i: usize = s.len();
    assert(s@.take(i as int) == s@);
    while i > 0
        invariant
            i <= s@.len(),
            last_of(s@, c, d) == last_of(s@.take(i as int), c, d),
        decreases i,
    {
        if s[i - 1] == c || s[i - 1] == d {
            return Some(i - 1);
        }
        i -= 1;
        assert(s@.take(i + 1).drop_last() == s@.take(i as int));
    }
    None
}

/// What stands behind the last `c` or `d` of `s`; all of `s` where there is none.
pub open spec fn after_last(s: Seq<char>, c: char, d: char) -> Seq<char> {
    match last_of(s, c, d) {
        Some(i) => s.skip(i + 1),
        None => s,
    }
}

pub fn tail_after_last(s: &str, c: char, d: char) -> (r: String)
    ensures
        r@ == after_last(s@, c, d),
{
    let v = chars_of(s);
    let n: usize = v.len();
    match last_char(&v, c, d) {
        Some(i) => {
            let r = string_of(&v, i + 1, n);
            assert(r@ == s@.skip(i + 1));
            r
        },
        None => s.to_owned(),
    }
}

} // verus!
