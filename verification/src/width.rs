//! Lengths in bytes of the UTF-8 form.

use vstd::prelude::*;
use vstd::utf8::{encode_scalar, encode_utf8};

use crate::text::{chars_of, string_of};

verus! {

/// The number of bytes of the UTF-8 form of `s`.
pub open spec fn blen(s: Seq<char>) -> nat {
    encode_utf8(s).len()
}

/// The number of bytes of the UTF-8 form of one character.
pub open spec fn char_width(c: char) -> nat {
    if (c as u32) < 0x80 {
        1
    } else if (c as u32) < 0x800 {
        2
    } else if (c as u32) < 0x10000 {
        3
    } else {
        4
    }
}

pub proof fn lemma_blen_one(c: char)
    ensures
        encode_scalar(c as u32).len() == char_width(c),
        blen(seq![c]) == char_width(c),
{
    let s = seq![c];
    assert(s.drop_first() =~= Seq::<char>::empty());
    assert(encode_utf8(s.drop_first()).len() == 0);
    vstd::utf8::char_is_scalar(c);
}

pub proof fn lemma_blen_concat(a: Seq<char>, b: Seq<char>)
    ensures
        blen(a + b) == blen(a) + blen(b),
    decreases a.len(),
{
    if a.len() == 0 {
        assert(a + b =~= b);
    } else {
        assert((a + b).drop_first() =~= a.drop_first() + b);
        lemma_blen_concat(a.drop_first(), b);
    }
}

/// No text takes more than four bytes per character.
pub proof fn lemma_blen_ascii(s: Seq<char>)
    ensures
        blen(s) <= 4 * s.len(),
        s.len() == 0 ==> blen(s) == 0,
        (forall|i: int| 0 <= i < s.len() ==> (#[trigger] s[i] as u32) < 128) ==> blen(s) == s.len(),
    decreases s.len(),
{
    if s.len() > 0 {
        let p = s.drop_last();
        lemma_blen_ascii(p);
        lemma_blen_push(p, s.last());
        assert(p.push(s.last()) =~= s);
        assert forall|i: int| 0 <= i < p.len() implies p[i] == s[i] by {}
    }
}

/// A text takes at least one byte per character.
pub proof fn lemma_blen_positive(s: Seq<char>)
    ensures
        blen(s) >= s.len(),
    decreases s.len(),
{
    if s.len() > 0 {
        let p = s.drop_last();
        lemma_blen_positive(p);
        lemma_blen_push(p, s.last());
        assert(p.push(s.last()) =~= s);
    }
}

/// The UTF-8 form of a prefix is a prefix of the UTF-8 form.
pub proof fn lemma_encode_prefix(s: Seq<char>, k: int)
    requires
        0 <= k <= s.len(),
    ensures
        blen(s.take(k)) <= blen(s),
        forall|i: int| 0 <= i < blen(s.take(k)) ==> #[trigger] encode_utf8(s.take(k))[i]
            == encode_utf8(s)[i],
    decreases k,
{
    if k > 0 {
        let t = s.drop_first();
        lemma_encode_prefix(t, k - 1);
        assert(s.take(k).drop_first() =~= t.take(k - 1));
    }
}

pub proof fn lemma_blen_push(s: Seq<char>, c: char)
    ensures
        blen(s.push(c)) == blen(s) + char_width(c),
{
    assert(s.push(c) =~= s + seq![c]);
    lemma_blen_concat(s, seq![c]);
    lemma_blen_one(c);
}

pub fn byte_len(s: &str) -> (n: usize)
    ensures
        n == blen(s@),
{
    s.as_bytes().len()
}

fn width_of(c: char) -> (n: usize)
    ensures
        n == char_width(c),
{
    let u: u32 = c as u32;
    if u < 0x80 {
        1
    } else if u < 0x800 {
        2
    } else if u < 0x10000 {
        3
    } else {
        4
    }
}

/// The longest prefix of `s` whose UTF-8 form has at most `max` bytes.
pub open spec fn fit(s: Seq<char>, max: nat) -> Seq<char>
    decreases s.len(),
{
    if s.len() == 0 || blen(s) <= max {
        s
    } else {
        fit(s.drop_last(), max)
    }
}

/// `fit` keeps within the limit, keeps a prefix, and one more character would not fit.
pub proof fn lemma_fit(s: Seq<char>, max: nat)
    ensures
        blen(fit(s, max)) <= max,
        fit(s, max).len() <= s.len(),
        fit(s, max) == s.take(fit(s, max).len() as int),
        fit(s, max).len() < s.len() ==> blen(s.take(fit(s, max).len() as int + 1)) > max,
    decreases s.len(),
{
    if s.len() == 0 || blen(s) <= max {
        assert(s.take(s.len() as int) =~= s);
    } else {
        let t = s.drop_last();
        lemma_fit(t, max);
        let k = fit(t, max).len() as int;
        assert(t.take(k) =~= s.take(k));
        if k < t.len() {
            assert(t.take(k + 1) =~= s.take(k + 1));
        } else {
            assert(s.take(k + 1) =~= s);
        }
    }
}

proof fn lemma_fit_at(s: Seq<char>, k: int, max: nat)
    requires
        0 <= k < s.len(),
        blen(s.take(k)) <= max,
        blen(s.take(k + 1)) > max,
    ensures
        fit(s, max) == s.take(k),
    decreases s.len(),
{
    reveal_with_fuel(fit, 2);
    if s.len() == k + 1 {
        assert(s.take(k + 1) =~= s);
        assert(s.drop_last() =~= s.take(k));
    } else {
        let t = s.drop_last();
        assert(t.take(k) =~= s.take(k));
        assert(t.take(k + 1) =~= s.take(k + 1));
        lemma_fit_at(t, k, max);
        lemma_blen_concat(s.take(k + 1), s.skip(k + 1));
        assert(s.take(k + 1) + s.skip(k + 1) =~= s);
    }
}

/// The longest prefix of `s` with at most `max` bytes.
pub fn fit_of(s: &str, max: usize) -> (r: String)
    ensures
        r@ == fit(s@, max as nat),
{
    let v = chars_of(s);
    let n: usize = v.len();
    let mut i: usize = 0;
    let mut used: usize = 0;
    assert(v@.take(0) =~= Seq::<char>::empty());
    while i < n
        invariant
            n == v@.len(),
            v@ == s@,
            i <= n,
            used == blen(v@.take(i as int)),
            used <= max,
        decreases n - i,
    {
        let w: usize = width_of(v[i]);
        proof {
            lemma_blen_push(v@.take(i as int), v@[i as int]);
            assert(v@.take(i + 1) =~= v@.take(i as int).push(v@[i as int]));
        }
        if w > max - used {
            let r = string_of(&v, 0, i);
            proof {
                lemma_fit_at(v@, i as int, max as nat);
                assert(v@.subrange(0, i as int) =~= v@.take(i as int));
            }
            return r;
        }
        used += w;
        i += 1;
    }
    assert(v@.take(i as int) =~= v@);
    s.to_owned()
}

} // verus!
