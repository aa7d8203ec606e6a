//! Names inside signatures.

use vstd::prelude::*;

use crate::split::trim_of;
use crate::text::{cat3, chars_of, last_char, matches_at_exec, string_of, tail_after_last};

verus! {

/// The bare name in a signature: what follows the last `:`, and in that what follows the last
/// `.` or `#`, without surrounding space.
pub open spec fn bare_name(signature: Seq<char>) -> Seq<char> {
    crate::split::trim(
        crate::text::after_last(crate::text::after_last(signature, ':', ':'), '.', '#'),
    )
}

/// The bare symbol name of a signature, without kind prefix and scope qualifier.
pub fn simple_name(signature: &str) -> (r: String)
    ensures
        r@ == bare_name(signature@),
{
    let after_kind = tail_after_last(signature, ':', ':');
    let name = tail_after_last(after_kind.as_str(), '.', '#');
    trim_of(name.as_str())
}

/// An ASCII letter, digit or underscore.
pub open spec fn is_ident(c: char) -> bool {
    ('a' <= c && c <= 'z') || ('A' <= c && c <= 'Z') || ('0' <= c && c <= '9') || c == '_'
}

pub fn ident(c: char) -> (r: bool)
    ensures
        r == is_ident(c),
{
    ('a' <= c && c <= 'z') || ('A' <= c && c <= 'Z') || ('0' <= c && c <= '9') || c == '_'
}

/// The needle stands at `p`, and not as the tail of a longer identifier.
pub open spec fn anchored_at(signature: Seq<char>, needle: Seq<char>, p: int) -> bool {
    crate::text::matches_at(signature, needle, p) && (p == 0 || !is_ident(signature[p - 1]))
}

/// The needle stands somewhere, and not as the tail of a longer identifier.
pub open spec fn anchored(signature: Seq<char>, needle: Seq<char>) -> bool {
    exists|p: int| anchored_at(signature, needle, p)
}

/// The container stands directly before the member, joined by `.` or `#`, and is not the tail of a
/// longer name.
pub open spec fn qualified(signature: Seq<char>, container: Seq<char>, member: Seq<char>) -> bool {
    anchored(signature, container + "."@ + member) || anchored(
        signature,
        container + "#"@ + member,
    )
}

fn is_anchored(signature: &str, needle: &str) -> (r: bool)
    ensures
        r == anchored(signature@, needle@),
{
    let s = chars_of(signature);
    let p = chars_of(needle);
    if p.len() > s.len() {
        return false;
    }
    let last: usize = s.len() - p.len();
    let mut i: usize = 0;
    while i <= last
        invariant
            i <= last + 1,
            s@ == signature@,
            p@ == needle@,
            last + p@.len() == s@.len(),
            forall|k: int| 0 <= k < i ==> !anchored_at(signature@, needle@, k),
        decreases last + 1 - i,
    {
        if matches_at_exec(&s, &p, i) && (i == 0 || !ident(s[i - 1])) {
            assert(anchored_at(signature@, needle@, i as int));
            return true;
        }
        if i == last {
            return false;
        }
        i += 1;
    }
    false
}

/// Whether a signature carries `container` as the qualifier directly before `member`.
pub fn has_qualified_container(signature: &str, container: &str, member: &str) -> (r: bool)
    ensures
        r == qualified(signature@, container@, member@),
{
    let dot = cat3(container, ".", member);
    let hash = cat3(container, "#", member);
    is_anchored(signature, dot.as_str()) || is_anchored(signature, hash.as_str())
}

/// The signature carries any container before its bare name.
pub open spec fn contained(signature: Seq<char>) -> bool {
    crate::text::last_of(crate::text::after_last(signature, ':', ':'), '.', '#') is Some
}

/// Whether a signature carries any container qualifier before its bare name.
pub fn has_any_container(signature: &str) -> (r: bool)
    ensures
        r == contained(signature@),
{
    let after_kind = tail_after_last(signature, ':', ':');
    let cs = chars_of(after_kind.as_str());
    last_char(&cs, '.', '#').is_some()
}

/// A name split at its last `.`, if it has one: what stands before, and what follows.
pub open spec fn dotted(symbol: Seq<char>) -> Option<(Seq<char>, Seq<char>)> {
    match crate::text::last_of(symbol, '.', '.') {
        Some(i) => Some((symbol.take(i), symbol.skip(i + 1))),
        None => None,
    }
}

/// Splits a name at its last `.`.
pub fn split_dotted(symbol: &str) -> (r: Option<(String, String)>)
    ensures
        r is Some == dotted(symbol@) is Some,
        r matches Some(p) ==> dotted(symbol@) == Some((p.0@, p.1@)),
{
    let cs = chars_of(symbol);
    let n: usize = cs.len();
    match last_char(&cs, '.', '.') {
        Some(i) => {
            let a = string_of(&cs, 0, i);
            let b = string_of(&cs, i + 1, n);
            assert(cs@.subrange(0, i as int) =~= symbol@.take(i as int));
            assert(cs@.subrange(i + 1, cs@.len() as int) =~= symbol@.skip(i + 1));
            Some((a, b))
        },
        None => None,
    }
}

/// A name that carries its container is found under that container.
pub proof fn law_member_is_found_under_its_container(container: Seq<char>, member: Seq<char>)
    ensures
        qualified(container + "."@ + member, container, member),
{
    let n = container + "."@ + member;
    assert(anchored_at(n, n, 0)) by {
        assert(n.subrange(0, n.len() as int) =~= n);
    }
}

} // verus!
