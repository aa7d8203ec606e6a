//! Control requests: the synonym table and the registry of repositories.

use vstd::prelude::*;

use crate::rank::{rank, Key, KeyView};
use crate::sanitize::is_valid_arg;
use crate::split::{split_on, trim_of};
use crate::store::Store;
use crate::text::{cat2, cat3, dec_usize, join_strings};

verus! {

// ---------------------------------------------------------------- synonyms

/// A change to the synonym table.
#[derive(Debug)]
pub enum SynonymChange {
    Add { term: String, alias: String },
    /// Replaces all aliases of the term.
    Replace { term: String, aliases: Vec<String> },
    Remove { term: String, alias: String },
    RemoveTerm { term: String },
    Reset,
}

/// What to do with a request: apply a change, or answer at once.
#[derive(Debug)]
pub enum SynonymStep {
    Apply(SynonymChange),
    Answer(String),
}

fn refused() -> (r: SynonymStep)
    ensures
        r matches SynonymStep::Answer(s) && s@ == "invalid input"@,
{
    SynonymStep::Answer("invalid input".to_owned())
}

/// Adds one pair, where both are valid.
pub fn synonym_add(term: &str, alias: &str) -> (r: SynonymStep)
    ensures
        crate::sanitize::arg_ok(term@) && crate::sanitize::arg_ok(alias@) ==> (r matches SynonymStep::Apply(
            SynonymChange::Add { term: t, alias: a },
        ) && t@ == term@ && a@ == alias@),
        !(crate::sanitize::arg_ok(term@) && crate::sanitize::arg_ok(alias@)) ==> (
        r matches SynonymStep::Answer(s) && s@ == "invalid input"@),
{
    if !is_valid_arg(term) || !is_valid_arg(alias) {
        return refused();
    }
    SynonymStep::Apply(SynonymChange::Add { term: term.to_owned(), alias: alias.to_owned() })
}

/// The parts without surrounding space, empty ones left out.
pub open spec fn trimmed(parts: Seq<Seq<char>>) -> Seq<Seq<char>>
    decreases parts.len(),
{
    if parts.len() == 0 {
        Seq::empty()
    } else {
        let t = crate::split::trim(parts.last());
        if t.len() == 0 {
            trimmed(parts.drop_last())
        } else {
            trimmed(parts.drop_last()).push(t)
        }
    }
}

/// The aliases of a comma-separated list.
pub open spec fn aliases(csv: Seq<char>) -> Seq<Seq<char>> {
    trimmed(crate::split::split(csv, ',', ','))
}

/// Every text is a valid argument.
pub open spec fn all_ok(v: Seq<Seq<char>>) -> bool {
    forall|i: int| 0 <= i < v.len() ==> crate::sanitize::arg_ok(#[trigger] v[i])
}

fn aliases_of(csv: &str) -> (r: Vec<String>)
    ensures
        crate::text::views(r@) == aliases(csv@),
{
    let parts = split_on(csv, ',', ',');
    let ghost all = crate::text::views(parts@);
    let mut r: Vec<String> = Vec::new();
    let mut i: usize = 0;
    assert(crate::text::views(r@) =~= trimmed(all.take(0)));
    while i < parts.len()
        invariant
            all == crate::text::views(parts@),
            i <= parts@.len(),
            crate::text::views(r@) == trimmed(all.take(i as int)),
        decreases parts@.len() - i,
    {
        assert(all.take(i + 1).drop_last() =~= all.take(i as int));
        assert(all.take(i + 1).last() == parts@[i as int]@);
        let t = trim_of(parts[i].as_str());
        if !t.as_str().is_empty() {
            proof {
                crate::text::lemma_views_push(r@, t);
            }
            r.push(t);
        }
        i += 1;
    }
    assert(all.take(i as int) =~= all);
    r
}

fn are_ok(v: &Vec<String>) -> (r: bool)
    ensures
        r == all_ok(crate::text::views(v@)),
{
    let mut i: usize = 0;
    while i < v.len()
        invariant
            i <= v@.len(),
            forall|j: int|
                0 <= j < i ==> crate::sanitize::arg_ok(#[trigger] crate::text::views(v@)[j]),
        decreases v@.len() - i,
    {
        assert(crate::text::views(v@)[i as int] == v@[i as int]@);
        if !is_valid_arg(v[i].as_str()) {
            return false;
        }
        i += 1;
    }
    true
}

/// Replaces all aliases of a term by those of a comma-separated list. One invalid alias refuses the
/// whole request.
pub fn synonym_set(term: &str, aliases_csv: &str) -> (r: SynonymStep)
    ensures
        crate::sanitize::arg_ok(term@) && all_ok(aliases(aliases_csv@)) ==> (r matches SynonymStep::Apply(
            SynonymChange::Replace { term: t, aliases: a },
        ) && t@ == term@ && crate::text::views(a@) == aliases(aliases_csv@)),
        !(crate::sanitize::arg_ok(term@) && all_ok(aliases(aliases_csv@))) ==> (
        r matches SynonymStep::Answer(s) && s@ == "invalid input"@),
{
    if !is_valid_arg(term) {
        return refused();
    }
    let list = aliases_of(aliases_csv);
    if !are_ok(&list) {
        return refused();
    }
    SynonymStep::Apply(SynonymChange::Replace { term: term.to_owned(), aliases: list })
}

/// Removes one pair.
pub fn synonym_remove(term: &str, alias: &str) -> (r: SynonymStep)
    ensures
        crate::sanitize::arg_ok(term@) && crate::sanitize::arg_ok(alias@) ==> (r matches SynonymStep::Apply(
            SynonymChange::Remove { term: t, alias: a },
        ) && t@ == term@ && a@ == alias@),
        !(crate::sanitize::arg_ok(term@) && crate::sanitize::arg_ok(alias@)) ==> (
        r matches SynonymStep::Answer(s) && s@ == "invalid input"@),
{
    if !is_valid_arg(term) || !is_valid_arg(alias) {
        return refused();
    }
    SynonymStep::Apply(SynonymChange::Remove { term: term.to_owned(), alias: alias.to_owned() })
}

/// Removes all aliases of a term.
pub fn synonym_remove_term(term: &str) -> (r: SynonymStep)
    ensures
        crate::sanitize::arg_ok(term@) ==> (r matches SynonymStep::Apply(
            SynonymChange::RemoveTerm { term: t },
        ) && t@ == term@),
        !crate::sanitize::arg_ok(term@) ==> (r matches SynonymStep::Answer(s) && s@
            == "invalid input"@),
{
    if !is_valid_arg(term) {
        return refused();
    }
    SynonymStep::Apply(SynonymChange::RemoveTerm { term: term.to_owned() })
}

/// Puts the built-in defaults back.
pub fn synonym_reset() -> (r: SynonymStep)
    ensures
        r == SynonymStep::Apply(SynonymChange::Reset),
{
    SynonymStep::Apply(SynonymChange::Reset)
}

/// The answer to an applied change: `ok`, or what went wrong.
pub fn synonym_reply(outcome: Result<(), String>) -> (r: String)
    ensures
        r@ == (match outcome {
            Ok(_) => "ok"@,
            Err(e) => e@,
        }),
{
    match outcome {
        Ok(_) => "ok".to_owned(),
        Err(e) => e,
    }
}

/// One line per pair.
pub open spec fn pair_lines(pairs: Seq<(String, String)>) -> Seq<Seq<char>> {
    Seq::new(pairs.len(), |i: int| pairs[i].0@ + " => "@ + pairs[i].1@)
}

/// All synonym pairs, one per line; nothing where they cannot be read.
pub fn synonym_list(store: &Store) -> (r: String)
    ensures
        r@ == (match store.synonyms {
            Some(pairs) => crate::text::join(pair_lines(pairs@), "\n"@),
            None => Seq::empty(),
        }),
{
    match &store.synonyms {
        Some(pairs) => {
            let ghost want = pair_lines(pairs@);
            let mut lines: Vec<String> = Vec::new();
            let mut i: usize = 0;
            while i < pairs.len()
                invariant
                    i <= pairs@.len(),
                    want == pair_lines(pairs@),
                    lines@.len() == i,
                    forall|j: int| 0 <= j < i ==> #[trigger] lines@[j]@ == want[j],
                decreases pairs@.len() - i,
            {
                lines.push(cat3(pairs[i].0.as_str(), " => ", pairs[i].1.as_str()));
                i += 1;
            }
            assert(crate::text::views(lines@) =~= want);
            join_strings(&lines, "\n")
        },
        None => String::new(),
    }
}

// ---------------------------------------------------------------- the registry

/// An entry of the registry.
#[derive(Debug)]
pub struct RegistryEntry {
    pub key: String,
    /// The name that is shown.
    pub display: String,
    /// The path of the database, as it is shown.
    pub path: String,
    /// The database file exists.
    pub exists: bool,
}

pub open spec fn entry_line(e: RegistryEntry) -> Seq<char> {
    e.display@ + "\t"@ + e.path@ + (if e.exists {
        "\t1"@
    } else {
        "\t0"@
    })
}

/// What the entries are ordered by.
pub open spec fn entry_keys(entries: Seq<RegistryEntry>) -> Seq<KeyView> {
    Seq::new(
        entries.len(),
        |i: int| (KeyView { first: 0, second: 0, name: entries[i].key@ }),
    )
}

/// The entries by key, one per line.
pub open spec fn registry_lines(entries: Seq<RegistryEntry>) -> Seq<Seq<char>> {
    let p = crate::rank::order_of(entry_keys(entries));
    Seq::new(p.len(), |i: int| entry_line(entries[p[i]]))
}

/// The registry as tab-separated lines; nothing where it cannot be read.
pub fn repos_list(entries: &Option<Vec<RegistryEntry>>) -> (r: String)
    ensures
        r@ == (match *entries {
            Some(v) => crate::text::join(registry_lines(v@), "\n"@),
            None => Seq::empty(),
        }),
{
    let v = match entries {
        Some(v) => v,
        None => return String::new(),
    };
    let mut keys: Vec<Key> = Vec::new();
    let mut i: usize = 0;
    while i < v.len()
        invariant
            i <= v@.len(),
            keys@.len() == i,
            forall|j: int| 0 <= j < i ==> #[trigger] keys@[j]@ == entry_keys(v@)[j],
        decreases v@.len() - i,
    {
        keys.push(Key { first: 0, second: 0, name: v[i].key.clone() });
        i += 1;
    }
    assert(crate::rank::key_views(keys@) =~= entry_keys(v@));
    let order = rank(&keys);
    let ghost p = crate::rank::order_of(entry_keys(v@));
    let mut lines: Vec<String> = Vec::new();
    let mut k: usize = 0;
    while k < order.len()
        invariant
            k <= order@.len(),
            p == crate::rank::ints(order@),
            forall|j: int| 0 <= j < order@.len() ==> #[trigger] order@[j] < v@.len(),
            lines@.len() == k,
            forall|j: int| 0 <= j < k ==> #[trigger] lines@[j]@ == entry_line(v@[p[j]]),
        decreases order@.len() - k,
    {
        assert(p[k as int] == order@[k as int]);
        let e = &v[order[k]];
        let mut s = cat3(e.display.as_str(), "\t", e.path.as_str());
        if e.exists {
            s.append("\t1");
        } else {
            s.append("\t0");
        }
        lines.push(s);
        k += 1;
    }
    assert(crate::text::views(lines@) =~= registry_lines(v@));
    join_strings(&lines, "\n")
}

/// The pruned names below their number.
pub open spec fn pruned(names: Seq<Seq<char>>) -> Seq<char> {
    crate::text::join(seq!["pruned: "@ + crate::text::dec(names.len())] + names, "\n"@)
}

/// The answer to a prune: how many entries went, and which.
pub fn repos_prune(removed: &Option<Vec<String>>) -> (r: String)
    ensures
        r@ == (match *removed {
            Some(v) => pruned(crate::text::views(v@)),
            None => "error"@,
        }),
{
    match removed {
        Some(v) => {
            let d = dec_usize(v.len());
            let mut lines: Vec<String> = Vec::new();
            lines.push(cat2("pruned: ", d.as_str()));
            let ghost all = crate::text::views(v@);
            let ghost head = seq!["pruned: "@ + crate::text::dec(all.len())];
            assert(crate::text::views(lines@) =~= head + all.take(0));
            let mut i: usize = 0;
            while i < v.len()
                invariant
                    i <= v@.len(),
                    all == crate::text::views(v@),
                    crate::text::views(lines@) == head + all.take(i as int),
                decreases v@.len() - i,
            {
                proof {
                    crate::text::lemma_views_push(lines@, v@[i as int]);
                    assert((head + all.take(i as int)).push(all[i as int]) =~= head + all.take(
                        i + 1,
                    ));
                }
                lines.push(v[i].clone());
                i += 1;
            }
            assert(all.take(i as int) =~= all);
            join_strings(&lines, "\n")
        },
        None => "error".to_owned(),
    }
}

/// The outcome of a removal from the registry.
#[derive(Debug)]
pub enum UnregisterResult {
    Removed,
    NotFound,
    /// The name fits several entries: their paths.
    Ambiguous(Vec<String>),
    Failed,
}

/// The answer to a removal.
pub fn repos_remove(outcome: &UnregisterResult) -> (r: String)
    ensures
        r@ == (match *outcome {
            UnregisterResult::Removed => "ok"@,
            UnregisterResult::NotFound => "not found"@,
            UnregisterResult::Ambiguous(paths) => "ambiguous: "@ + crate::text::join(
                crate::text::views(paths@),
                ", "@,
            ),
            UnregisterResult::Failed => "error"@,
        }),
{
    match outcome {
        UnregisterResult::Removed => "ok".to_owned(),
        UnregisterResult::NotFound => "not found".to_owned(),
        UnregisterResult::Ambiguous(paths) => {
            let list = join_strings(paths, ", ");
            cat2("ambiguous: ", list.as_str())
        },
        UnregisterResult::Failed => "error".to_owned(),
    }
}

} // verus!
