//! Advisory notes: what a reader must know about the state of the index behind an answer.

use vstd::prelude::*;

use crate::store::Store;
use crate::text::{cat3, same};

verus! {

/// The semantic pass has not caught up with the index: a commit was indexed, and the pass has no
/// commit of its own.
pub open spec fn is_phase_b_pending(store: Store) -> bool {
    store.meta_value("phase_b_commit"@) is None && store.meta_value("last_commit"@) is Some
}

/// Whether the semantic pass was put off and has not run yet.
pub fn phase_b_pending(store: &Store) -> (r: bool)
    ensures
        r == is_phase_b_pending(*store),
{
    store.get_meta("phase_b_commit").is_none() && store.get_meta("last_commit").is_some()
}

/// A recorded value that is present and not empty.
pub open spec fn filled(v: Option<Seq<char>>) -> Option<Seq<char>> {
    match v {
        Some(s) => if s.len() == 0 {
            None
        } else {
            Some(s)
        },
        None => None,
    }
}

fn get_filled<'a>(store: &'a Store, key: &str) -> (r: Option<&'a String>)
    ensures
        r is Some == filled(store.meta_value(key@)) is Some,
        r matches Some(v) ==> filled(store.meta_value(key@)) == Some(v@),
{
    match store.get_meta(key) {
        Some(v) => if v.as_str().is_empty() {
            None
        } else {
            Some(v)
        },
        None => None,
    }
}

pub open spec fn pending_note() -> Seq<char> {
    "[note: call-graph index incomplete, Phase B has not caught up with the current commit; call edges may be missing and empty results are not authoritative. Run `travsr status` to check progress.]"@
}

pub open spec fn stale_note() -> Seq<char> {
    "[note: call-graph edges degraded, a background re-index dropped call edges since the last Phase B run; empty results are not authoritative. Run `travsr init` to rebuild.]"@
}

/// The note on the call graph: pending where the semantic pass has no commit or another one than
/// the index, else stale where the index is marked dirty, else none.
pub open spec fn degraded_note(store: Store) -> Option<Seq<char>> {
    let phase_b = filled(store.meta_value("phase_b_commit"@));
    let last = filled(store.meta_value("last_commit"@));
    if last is Some && phase_b != last {
        Some(pending_note())
    } else if store.meta_value("phase_b_dirty"@) == Some("1"@) {
        Some(stale_note())
    } else {
        None
    }
}

/// The note on an incomplete call graph, if one is due.
pub fn phase_b_degraded_note(store: &Store) -> (r: Option<&'static str>)
    ensures
        r is Some == degraded_note(*store) is Some,
        r matches Some(s) ==> degraded_note(*store) == Some(s@),
{
    let pending: &'static str = "[note: call-graph index incomplete, Phase B has not caught up with the current commit; call edges may be missing and empty results are not authoritative. Run `travsr status` to check progress.]";
    let stale: &'static str = "[note: call-graph edges degraded, a background re-index dropped call edges since the last Phase B run; empty results are not authoritative. Run `travsr init` to rebuild.]";
    let phase_b = get_filled(store, "phase_b_commit");
    let last = get_filled(store, "last_commit");
    let behind = match (phase_b, last) {
        (None, Some(_)) => true,
        (Some(p), Some(l)) => !same(p.as_str(), l.as_str()),
        _ => false,
    };
    if behind {
        return Some(pending);
    }
    let dirty = match store.get_meta("phase_b_dirty") {
        Some(v) => same(v.as_str(), "1"),
        None => false,
    };
    if dirty {
        Some(stale)
    } else {
        None
    }
}

/// Records the launch directory. The first call wins.
pub fn set_launch_cwd(slot: &mut Option<String>, dir: String)
    ensures
        *final(slot) == (match *old(slot) {
            Some(d) => Some(d),
            None => Some(dir),
        }),
{
    if slot.is_none() {
        *slot = Some(dir);
    }
}

/// The commit that a run of `git rev-parse` printed: its output without the space around it, where
/// the run succeeded and printed anything.
pub open spec fn printed_head(success: bool, stdout: Seq<char>) -> Option<Seq<char>> {
    if success && crate::split::trim(stdout).len() > 0 {
        Some(crate::split::trim(stdout))
    } else {
        None
    }
}

/// The short commit hash that a run of `git rev-parse` printed.
pub fn git_short_head(success: bool, stdout: &str) -> (r: Option<String>)
    ensures
        r is Some == printed_head(success, stdout@) is Some,
        r matches Some(h) ==> printed_head(success, stdout@) == Some(h@),
{
    if !success {
        return None;
    }
    let head = crate::split::trim_of(stdout);
    if head.as_str().is_empty() {
        None
    } else {
        Some(head)
    }
}

/// `b` with an ASCII capital made small.
pub open spec fn lower_byte(b: u8) -> u8 {
    if 65 <= b <= 90 {
        (b + 32) as u8
    } else {
        b
    }
}

/// The UTF-8 forms agree, but for ASCII case, as far as the shorter one goes.
pub open spec fn same_abbreviation(a: Seq<char>, b: Seq<char>) -> bool {
    let x = vstd::utf8::encode_utf8(a);
    let y = vstd::utf8::encode_utf8(b);
    forall|i: int| #![trigger x[i]] #![trigger y[i]]
        0 <= i < x.len() && i < y.len() ==> lower_byte(x[i]) == lower_byte(y[i])
}

/// Whether two abbreviated hashes denote different commits; `None` where one is unknown.
pub open spec fn shas_differ(a: Seq<char>, b: Seq<char>) -> Option<bool> {
    if a.len() == 0 || b.len() == 0 {
        None
    } else {
        Some(!same_abbreviation(a, b))
    }
}

fn lower(b: u8) -> (r: u8)
    ensures
        r == lower_byte(b),
{
    if 65 <= b && b <= 90 {
        b + 32
    } else {
        b
    }
}

/// Whether two abbreviated commit hashes denote different commits. An abbreviation denotes the
/// commits that it is a prefix of, in either case; an empty one denotes nothing known.
pub fn short_shas_differ(a: &str, b: &str) -> (r: Option<bool>)
    ensures
        r == shas_differ(a@, b@),
{
    if a.is_empty() || b.is_empty() {
        return None;
    }
    let x = a.as_bytes();
    let y = b.as_bytes();
    let mut i: usize = 0;
    while i < x.len() && i < y.len()
        invariant
            x@ == vstd::utf8::encode_utf8(a@),
            y@ == vstd::utf8::encode_utf8(b@),
            a@.len() > 0,
            b@.len() > 0,
            i <= x@.len(),
            i <= y@.len(),
            forall|j: int| #![trigger x@[j]] #![trigger y@[j]]
                0 <= j < i ==> lower_byte(x@[j]) == lower_byte(y@[j]),
        decreases x@.len() - i,
    {
        if lower(x[i]) != lower(y[i]) {
            return Some(true);
        }
        i += 1;
    }
    Some(false)
}

/// The note on an index of another commit than the checkout's.
pub open spec fn mismatch_text(head: Seq<char>, stored: Seq<char>) -> Seq<char> {
    "[note: index describes commit "@ + stored + " but your checkout is at "@ + head
        + "; results (including path:line) may not match your working tree. This is expected in a linked worktree; otherwise run `travsr init` or wait for the daemon to reconcile.]"@
}

/// The mismatch note is due where both commits are known and differ.
pub open spec fn mismatch_note(head: Seq<char>, stored: Seq<char>) -> Option<Seq<char>> {
    if shas_differ(head, stored) == Some(true) {
        Some(mismatch_text(head, stored))
    } else {
        None
    }
}

/// The note that the index describes another commit than the caller's checkout.
pub fn head_index_mismatch_note(head: &str, stored: &str) -> (r: Option<String>)
    ensures
        r is Some == mismatch_note(head@, stored@) is Some,
        r matches Some(s) ==> mismatch_note(head@, stored@) == Some(s@),
{
    match short_shas_differ(head, stored) {
        Some(true) => {
            let mut s = cat3("[note: index describes commit ", stored, " but your checkout is at ");
            s.append(head);
            s.append(
                "; results (including path:line) may not match your working tree. This is expected in a linked worktree; otherwise run `travsr init` or wait for the daemon to reconcile.]",
            );
            Some(s)
        },
        _ => None,
    }
}

/// The commit that the index describes; empty where it is unknown.
pub open spec fn stored_commit(store: Store) -> Seq<char> {
    match store.meta_value("last_commit"@) {
        Some(v) => v,
        None => Seq::empty(),
    }
}

/// The mismatch note against the index's commit.
pub open spec fn head_note(store: Store, head: Option<Seq<char>>) -> Option<Seq<char>> {
    match head {
        Some(h) => mismatch_note(h, stored_commit(store)),
        None => None,
    }
}

fn head_note_of(store: &Store, head: Option<&str>) -> (r: Option<String>)
    ensures
        r is Some == head_note(*store, crate::store::opt_view(head)) is Some,
        r matches Some(s) ==> head_note(*store, crate::store::opt_view(head)) == Some(s@),
{
    match head {
        Some(h) => match store.get_meta("last_commit") {
            Some(v) => head_index_mismatch_note(h, v.as_str()),
            None => {
                let e = String::new();
                head_index_mismatch_note(h, e.as_str())
            },
        },
        None => None,
    }
}

/// A note below a body; alone where the body is empty.
pub open spec fn with_note(body: Seq<char>, note: Option<Seq<char>>) -> Seq<char> {
    match note {
        Some(n) => if body.len() == 0 {
            n
        } else {
            body + "\n"@ + n
        },
        None => body,
    }
}

fn append_note(body: String, note: Option<&str>) -> (r: String)
    ensures
        r@ == with_note(body@, crate::store::opt_view(note)),
{
    match note {
        Some(n) => if body.as_str().is_empty() {
            n.to_owned()
        } else {
            cat3(body.as_str(), "\n", n)
        },
        None => body,
    }
}

/// A body with the notes on the call graph and on the commit.
pub open spec fn read_notes(store: Store, body: Seq<char>, head: Option<Seq<char>>) -> Seq<char> {
    with_note(with_note(body, degraded_note(store)), head_note(store, head))
}

/// A body with the note on the commit.
pub open spec fn head_notes(store: Store, body: Seq<char>, head: Option<Seq<char>>) -> Seq<char> {
    with_note(body, head_note(store, head))
}

/// Appends the notes that are due on the call graph and on the commit. `head` is the caller's
/// commit, if it is known.
pub fn append_read_notes(store: &Store, body: String, head: Option<&str>) -> (r: String)
    ensures
        r@ == read_notes(*store, body@, crate::store::opt_view(head)),
{
    let one = append_note(body, phase_b_degraded_note(store));
    match head_note_of(store, head) {
        Some(n) => append_note(one, Some(n.as_str())),
        None => one,
    }
}

/// Appends the note that is due on the commit.
pub fn append_head_note(store: &Store, body: String, head: Option<&str>) -> (r: String)
    ensures
        r@ == head_notes(*store, body@, crate::store::opt_view(head)),
{
    match head_note_of(store, head) {
        Some(n) => append_note(body, Some(n.as_str())),
        None => body,
    }
}

/// The notes that are due, each on its own.
pub open spec fn note_signals(store: Store, head: Option<Seq<char>>) -> Seq<Seq<char>> {
    let a = match degraded_note(store) {
        Some(n) => seq![n],
        None => Seq::empty(),
    };
    match head_note(store, head) {
        Some(n) => a.push(n),
        None => a,
    }
}

/// The notes on the call graph and on the commit, for answers that carry them apart from their
/// body.
pub fn read_note_signals(store: &Store, head: Option<&str>) -> (r: Vec<String>)
    ensures
        crate::text::views(r@) == note_signals(*store, crate::store::opt_view(head)),
{
    let mut r: Vec<String> = Vec::new();
    if let Some(n) = phase_b_degraded_note(store) {
        r.push(n.to_owned());
    }
    let ghost a = match degraded_note(*store) {
        Some(n) => seq![n],
        None => Seq::empty(),
    };
    assert(crate::text::views(r@) =~= a);
    if let Some(n) = head_note_of(store, head) {
        proof {
            crate::text::lemma_views_push(r@, n);
        }
        r.push(n);
    }
    r
}

// ---------------------------------------------------------------- laws

/// Which of two abbreviations is given first does not matter.
pub proof fn law_shas_differ_is_symmetric(a: Seq<char>, b: Seq<char>)
    ensures
        shas_differ(a, b) == shas_differ(b, a),
{
}

/// An abbreviation of a commit never differs from the commit, however many characters it keeps.
pub proof fn law_abbreviation_never_differs(full: Seq<char>, k: int)
    requires
        0 < k <= full.len(),
    ensures
        shas_differ(full, full.take(k)) == Some(false),
        mismatch_note(full, full.take(k)) is None,
{
    crate::width::lemma_encode_prefix(full, k);
}

/// No mismatch is reported where a commit is unknown.
pub proof fn law_unknown_commit_is_never_a_mismatch(head: Seq<char>, stored: Seq<char>)
    requires
        head.len() == 0 || stored.len() == 0,
    ensures
        mismatch_note(head, stored) is None,
{
}

/// Notes never take anything away: the body stays in front, and an answer with a note is never
/// empty.
pub proof fn law_notes_keep_the_body(store: Store, body: Seq<char>, head: Option<Seq<char>>)
    ensures
        body.is_prefix_of(read_notes(store, body, head)),
        body.is_prefix_of(head_notes(store, body, head)),
        degraded_note(store) is None && head_note(store, head) is None ==> read_notes(
            store,
            body,
            head,
        ) == body,
{
    let one = with_note(body, degraded_note(store));
    assert(body.is_prefix_of(one));
    let two = with_note(one, head_note(store, head));
    assert(one.is_prefix_of(two));
}

/// The call-graph note is absent where the semantic pass stands at the indexed commit and
/// nothing is dirty.
pub proof fn law_complete_index_has_no_note(store: Store)
    requires
        store.meta_value("phase_b_commit"@) == store.meta_value("last_commit"@),
        store.meta_value("phase_b_dirty"@) is None,
    ensures
        degraded_note(store) is None,
        !is_phase_b_pending(store),
{
}

} // verus!
