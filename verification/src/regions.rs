//! Directory regions: the components of a repository, read off its paths alone.

use vstd::prelude::*;

use crate::order::insert_member;
use crate::rank::{rank, Key, KeyView};
use crate::text::{chars_of, has_prefix, has_str, list_has, same, string_of};
use crate::width::byte_len;

verus! {

/// How many regions a repository is aimed to have.
pub const TARGET_REGIONS: usize = 24;

/// The fewest files that a region may hold without being split.
pub const MIN_CEIL: usize = 4;

/// The name of the region of top-level files.
pub open spec fn root() -> Seq<char> {
    "(root)"@
}

// ---------------------------------------------------------------- paths

/// A path inside the repository: not outside, absolute, synthetic or behind a protocol.
pub open spec fn is_local(path: Seq<char>) -> bool {
    path.len() > 0 && !crate::text::starts_with(path, ".."@) && !crate::text::starts_with(
        path,
        "/"@,
    ) && !crate::text::starts_with(path, "<"@) && !crate::text::contains(path, "://"@)
}

/// Whether a path can be placed in the directory tree.
pub fn repo_map_is_local_path(path: &str) -> (r: bool)
    ensures
        r == is_local(path@),
{
    !path.is_empty() && !has_prefix(path, "..") && !has_prefix(path, "/") && !has_prefix(path, "<")
        && !has_str(path, "://")
}

/// The directory of a path; top-level files are in the root.
pub open spec fn dir_of(path: Seq<char>) -> Seq<char> {
    match crate::text::last_of(path, '/', '/') {
        Some(i) => path.take(i),
        None => root(),
    }
}

/// The parent directory of a path.
pub fn repo_map_dir_of(path: &str) -> (r: String)
    ensures
        r@ == dir_of(path@),
{
    let cs = chars_of(path);
    match crate::text::last_char(&cs, '/', '/') {
        Some(i) => {
            let s = string_of(&cs, 0, i);
            assert(cs@.subrange(0, i as int) =~= path@.take(i as int));
            s
        },
        None => "(root)".to_owned(),
    }
}

/// `d` is a directory above `p`.
pub open spec fn above(d: Seq<char>, p: Seq<char>) -> bool {
    d.len() < p.len() && p[d.len() as int] == '/' && p.take(d.len() as int) == d
}

fn is_above(d: &Vec<char>, p: &Vec<char>) -> (r: bool)
    ensures
        r == above(d@, p@),
{
    if d.len() >= p.len() || p[d.len()] != '/' {
        return false;
    }
    let mut i: usize = 0;
    while i < d.len()
        invariant
            i <= d@.len() < p@.len(),
            forall|j: int| 0 <= j < i ==> d@[j] == p@[j],
        decreases d@.len() - i,
    {
        if d[i] != p[i] {
            assert(p@.take(d@.len() as int)[i as int] != d@[i as int]);
            return false;
        }
        i += 1;
    }
    assert(p@.take(d@.len() as int) =~= d@);
    true
}

// ---------------------------------------------------------------- which directories are regions

/// How many of the files lie below a directory.
pub open spec fn count(files: Seq<Seq<char>>, d: Seq<char>) -> nat
    decreases files.len(),
{
    if files.len() == 0 {
        0
    } else {
        count(files.drop_last(), d) + if above(d, files.last()) {
            1nat
        } else {
            0
        }
    }
}

/// How many files a directory may hold without being split.
pub open spec fn ceiling(total: nat) -> nat {
    if total / 24 > 4 {
        total / 24
    } else {
        4
    }
}

/// A directory that holds too many files for one region.
pub open spec fn overfull(files: Seq<Seq<char>>, d: Seq<char>) -> bool {
    count(files, d) > ceiling(files.len())
}

/// Some file lies below the directory.
pub open spec fn populated(files: Seq<Seq<char>>, d: Seq<char>) -> bool {
    exists|i: int| 0 <= i < files.len() && above(d, #[trigger] files[i])
}

/// Some file lies below the directory, but not directly in it.
pub open spec fn has_subdir(files: Seq<Seq<char>>, d: Seq<char>) -> bool {
    exists|i: int|
        0 <= i < files.len() && above(d, #[trigger] files[i]) && dir_of(files[i]) != d
}

/// Some file lies directly in the directory.
pub open spec fn has_direct(files: Seq<Seq<char>>, d: Seq<char>) -> bool {
    exists|i: int| 0 <= i < files.len() && dir_of(#[trigger] files[i]) == d
}

/// Every directory above is overfull.
pub open spec fn crowded_above(files: Seq<Seq<char>>, d: Seq<char>) -> bool {
    forall|i: int| 0 <= i < d.len() && d[i] == '/' ==> overfull(files, #[trigger] d.take(i))
}

/// The directory is a region: everything above it is split, and it is itself not overfull, or
/// cannot be split, or has files of its own. The root is a region where it has files.
pub open spec fn is_region(files: Seq<Seq<char>>, d: Seq<char>) -> bool {
    if d == root() {
        has_direct(files, root()) || populated(files, root())
    } else {
        !above(root(), d) && populated(files, d) && crowded_above(files, d) && (!overfull(files, d)
            || !has_subdir(files, d) || has_direct(files, d))
    }
}

pub open spec fn region_set(files: Seq<Seq<char>>) -> Set<Seq<char>> {
    Set::new(|d: Seq<char>| is_region(files, d))
}

/// What regions are ordered by: the longest name first.
pub open spec fn length_keys(v: Seq<Seq<char>>) -> Seq<KeyView> {
    Seq::new(
        v.len(),
        |i: int| (KeyView { first: crate::width::blen(v[i]), second: 0, name: v[i] }),
    )
}

/// The names by length, longest first, those of one length in order.
pub open spec fn by_length(v: Seq<Seq<char>>) -> Seq<Seq<char>> {
    crate::rank::at(v, crate::rank::order_of(length_keys(v)))
}

/// The regions of a set of files, longest name first.
pub open spec fn regions(files: Seq<Seq<char>>) -> Seq<Seq<char>> {
    by_length(crate::order::sorted_of(region_set(files)))
}

fn all_chars(files: &Vec<String>) -> (r: Vec<Vec<char>>)
    ensures
        r@.len() == files@.len(),
        forall|i: int| 0 <= i < r@.len() ==> #[trigger] r@[i]@ == files@[i]@,
{
    let mut r: Vec<Vec<char>> = Vec::new();
    let mut i: usize = 0;
    while i < files.len()
        invariant
            i <= files@.len(),
            r@.len() == i,
            forall|j: int| 0 <= j < i ==> #[trigger] r@[j]@ == files@[j]@,
        decreases files@.len() - i,
    {
        r.push(chars_of(files[i].as_str()));
        i += 1;
    }
    r
}

/// The texts of a list of character lists.
pub open spec fn texts(v: Seq<Vec<char>>) -> Seq<Seq<char>> {
    Seq::new(v.len(), |i: int| v[i]@)
}

fn count_below(paths: &Vec<Vec<char>>, d: &Vec<char>) -> (n: usize)
    ensures
        n == count(texts(paths@), d@),
        n <= paths@.len(),
{
    let mut n: usize = 0;
    let mut i: usize = 0;
    let ghost all = texts(paths@);
    while i < paths.len()
        invariant
            all == texts(paths@),
            i <= paths@.len(),
            n <= i,
            n == count(all.take(i as int), d@),
        decreases paths@.len() - i,
    {
        assert(all.take(i + 1).drop_last() =~= all.take(i as int));
        if is_above(d, &paths[i]) {
            n += 1;
        }
        i += 1;
    }
    assert(all.take(i as int) =~= all);
    n
}

fn is_overfull(paths: &Vec<Vec<char>>, d: &Vec<char>) -> (r: bool)
    ensures
        r == overfull(texts(paths@), d@),
{
    let share: usize = paths.len() / TARGET_REGIONS;
    let ceil: usize = if share > MIN_CEIL {
        share
    } else {
        MIN_CEIL
    };
    assert(texts(paths@).len() == paths@.len());
    count_below(paths, d) > ceil
}

fn is_populated(paths: &Vec<Vec<char>>, d: &Vec<char>) -> (r: bool)
    ensures
        r == populated(texts(paths@), d@),
{
    let mut i: usize = 0;
    while i < paths.len()
        invariant
            i <= paths@.len(),
            forall|j: int| 0 <= j < i ==> !above(d@, #[trigger] texts(paths@)[j]),
        decreases paths@.len() - i,
    {
        assert(texts(paths@)[i as int] == paths@[i as int]@);
        if is_above(d, &paths[i]) {
            return true;
        }
        i += 1;
    }
    false
}

fn dir_is(p: &Vec<char>, d: &Vec<char>) -> (r: bool)
    ensures
        r == (dir_of(p@) == d@),
{
    match crate::text::last_char(p, '/', '/') {
        Some(i) => {
            if i != d.len() {
                return false;
            }
            let mut k: usize = 0;
            while k < d.len()
                invariant
                    i == d@.len(),
                    i < p@.len(),
                    k <= d@.len(),
                    dir_of(p@) == p@.take(i as int),
                    forall|j: int| 0 <= j < k ==> d@[j] == p@[j],
                decreases d@.len() - k,
            {
                if d[k] != p[k] {
                    assert(p@.take(i as int)[k as int] != d@[k as int]);
                    return false;
                }
                k += 1;
            }
            assert(p@.take(i as int) =~= d@);
            true
        },
        None => {
            let name = string_of(d, 0, d.len());
            assert(d@.subrange(0, d@.len() as int) =~= d@);
            same(name.as_str(), "(root)")
        },
    }
}

fn is_direct(paths: &Vec<Vec<char>>, d: &Vec<char>) -> (r: bool)
    ensures
        r == has_direct(texts(paths@), d@),
{
    let mut i: usize = 0;
    while i < paths.len()
        invariant
            i <= paths@.len(),
            forall|j: int| 0 <= j < i ==> dir_of(#[trigger] texts(paths@)[j]) != d@,
        decreases paths@.len() - i,
    {
        assert(texts(paths@)[i as int] == paths@[i as int]@);
        if dir_is(&paths[i], d) {
            return true;
        }
        i += 1;
    }
    false
}

fn is_parent(paths: &Vec<Vec<char>>, d: &Vec<char>) -> (r: bool)
    ensures
        r == has_subdir(texts(paths@), d@),
{
    let mut i: usize = 0;
    while i < paths.len()
        invariant
            i <= paths@.len(),
            forall|j: int|
                0 <= j < i ==> !(above(d@, #[trigger] texts(paths@)[j]) && dir_of(texts(paths@)[j])
                    != d@),
        decreases paths@.len() - i,
    {
        assert(texts(paths@)[i as int] == paths@[i as int]@);
        if is_above(d, &paths[i]) && !dir_is(&paths[i], d) {
            return true;
        }
        i += 1;
    }
    false
}

fn is_crowded_above(paths: &Vec<Vec<char>>, d: &Vec<char>) -> (r: bool)
    ensures
        r == crowded_above(texts(paths@), d@),
{
    let mut up: Vec<char> = Vec::new();
    let mut i: usize = 0;
    while i < d.len()
        invariant
            i <= d@.len(),
            up@ == d@.take(i as int),
            forall|j: int|
                0 <= j < i && d@[j] == '/' ==> overfull(texts(paths@), #[trigger] d@.take(j)),
        decreases d@.len() - i,
    {
        if d[i] == '/' && !is_overfull(paths, &up) {
            return false;
        }
        up.push(d[i]);
        i += 1;
        assert(d@.take(i as int) =~= d@.take(i - 1).push(d@[i - 1]));
    }
    true
}

fn region_test(paths: &Vec<Vec<char>>, name: &str) -> (r: bool)
    ensures
        r == is_region(texts(paths@), name@),
{
    let d = chars_of(name);
    if same(name, "(root)") {
        is_direct(paths, &d) || is_populated(paths, &d)
    } else {
        let top = chars_of("(root)");
        !is_above(&top, &d) && is_populated(paths, &d) && is_crowded_above(paths, &d) && (
        !is_overfull(paths, &d) || !is_parent(paths, &d) || is_direct(paths, &d))
    }
}

/// All directories above any of the files.
pub open spec fn dir_set(files: Seq<Seq<char>>) -> Set<Seq<char>> {
    Set::new(|d: Seq<char>| populated(files, d))
}

fn directories(paths: &Vec<Vec<char>>) -> (r: Vec<String>)
    ensures
        crate::order::ascending(crate::text::views(r@)),
        crate::text::views(r@).to_set() == dir_set(texts(paths@)),
{
    let mut r: Vec<String> = Vec::new();
    let ghost all = texts(paths@);
    let mut i: usize = 0;
    proof {
        assert(crate::text::views(r@) =~= Seq::<Seq<char>>::empty());
        assert(crate::text::views(r@).to_set() =~= dir_set(all.take(0)));
    }
    while i < paths.len()
        invariant
            all == texts(paths@),
            i <= paths@.len(),
            crate::order::ascending(crate::text::views(r@)),
            crate::text::views(r@).to_set() == dir_set(all.take(i as int)),
        decreases paths@.len() - i,
    {
        let p = &paths[i];
        let ghost was = dir_set(all.take(i as int));
        let mut j: usize = 0;
        assert(was =~= was.union(Set::new(|d: Seq<char>| d.len() < 0 && above(d, p@))));
        while j < p.len()
            invariant
                j <= p@.len(),
                crate::order::ascending(crate::text::views(r@)),
                crate::text::views(r@).to_set() == was.union(
                    Set::new(|d: Seq<char>| d.len() < j && above(d, p@)),
                ),
            decreases p@.len() - j,
        {
            let ghost seen = Set::new(|d: Seq<char>| d.len() < j && above(d, p@));
            let ghost next = Set::new(|d: Seq<char>| d.len() < j + 1 && above(d, p@));
            if p[j] == '/' {
                let d = string_of(p, 0, j);
                assert(p@.subrange(0, j as int) =~= p@.take(j as int));
                let ghost dv = d@;
                insert_member(&mut r, d);
                proof {
                    assert(above(dv, p@));
                    assert forall|x: Seq<char>| next.contains(x) <==> seen.insert(dv).contains(x) by {
                        if x.len() == j && above(x, p@) {
                            assert(x == p@.take(j as int));
                        }
                    }
                    assert(was.union(next) =~= was.union(seen).insert(dv));
                }
            } else {
                assert(next =~= seen);
            }
            j += 1;
        }
        proof {
            let own = Set::new(|d: Seq<char>| d.len() < j && above(d, p@));
            let t = all.take(i + 1);
            assert forall|d: Seq<char>| dir_set(t).contains(d) <==> was.union(own).contains(d) by {
                if populated(t, d) {
                    let k = choose|k: int| 0 <= k < t.len() && above(d, #[trigger] t[k]);
                    if k < i {
                        assert(all.take(i as int)[k] == t[k]);
                    }
                }
                if populated(all.take(i as int), d) {
                    let k = choose|k: int|
                        0 <= k < i && above(d, #[trigger] all.take(i as int)[k]);
                    assert(t[k] == all.take(i as int)[k]);
                }
                if own.contains(d) {
                    assert(t[i as int] == p@);
                }
            }
            assert(dir_set(t) =~= was.union(own));
        }
        i += 1;
    }
    assert(all.take(i as int) =~= all);
    r
}

fn region_names(paths: &Vec<Vec<char>>) -> (r: Vec<String>)
    ensures
        crate::order::ascending(crate::text::views(r@)),
        crate::text::views(r@).to_set() == region_set(texts(paths@)),
{
    let ghost all = texts(paths@);
    let dirs = directories(paths);
    let ghost dv = crate::text::views(dirs@);
    let mut r: Vec<String> = Vec::new();
    assert(crate::text::views(r@) =~= Seq::<Seq<char>>::empty());
    assert(crate::text::views(r@).to_set() =~= Set::empty());
    if region_test(paths, "(root)") {
        insert_member(&mut r, "(root)".to_owned());
    }
    let ghost first = crate::text::views(r@).to_set();
    let mut i: usize = 0;
    assert(first =~= first.union(
        Set::new(|d: Seq<char>| dv.take(0).contains(d) && is_region(all, d)),
    ));
    while i < dirs.len()
        invariant
            all == texts(paths@),
            dv == crate::text::views(dirs@),
            i <= dirs@.len(),
            crate::order::ascending(crate::text::views(r@)),
            crate::text::views(r@).to_set() == first.union(
                Set::new(|d: Seq<char>| dv.take(i as int).contains(d) && is_region(all, d)),
            ),
        decreases dirs@.len() - i,
    {
        let ghost seen = Set::new(
            |d: Seq<char>| dv.take(i as int).contains(d) && is_region(all, d),
        );
        let ghost next = Set::new(|d: Seq<char>| dv.take(i + 1).contains(d) && is_region(all, d));
        let ghost x = dirs@[i as int]@;
        proof {
            assert(dv.take(i + 1) =~= dv.take(i as int).push(x));
            assert forall|d: Seq<char>|
                next.contains(d) <==> seen.contains(d) || (d == x && is_region(all, x)) by {
                crate::store::lemma_push_contains(dv.take(i as int), x, d);
            }
        }
        if region_test(paths, dirs[i].as_str()) {
            insert_member(&mut r, dirs[i].clone());
            assert(first.union(next) =~= first.union(seen).insert(x));
        } else {
            assert(next =~= seen);
        }
        i += 1;
    }
    proof {
        assert(dv.take(i as int) =~= dv);
        let own = Set::new(|d: Seq<char>| dv.contains(d) && is_region(all, d));
        assert forall|d: Seq<char>|
            region_set(all).contains(d) <==> first.union(own).contains(d) by {
            if is_region(all, d) && d != root() {
                assert(dir_set(all).contains(d));
                assert(dv.to_set().contains(d));
            }
        }
        assert(region_set(all) =~= first.union(own));
    }
    r
}

/// The regions of a set of files: every directory that is small enough or cannot be split further.
/// Longest name first, so that the first that holds a path is the nearest one.
pub fn repo_regions(files: &Vec<String>) -> (r: Vec<String>)
    ensures
        crate::text::views(r@) == regions(crate::text::views(files@)),
{
    let paths = all_chars(files);
    assert(texts(paths@) =~= crate::text::views(files@));
    let names = region_names(&paths);
    proof {
        crate::order::lemma_sorted_of(crate::text::views(names@));
    }
    let ghost nv = crate::text::views(names@);
    let mut keys: Vec<Key> = Vec::new();
    let mut i: usize = 0;
    while i < names.len()
        invariant
            i <= names@.len(),
            nv == crate::text::views(names@),
            keys@.len() == i,
            forall|j: int| 0 <= j < i ==> #[trigger] keys@[j]@ == length_keys(nv)[j],
        decreases names@.len() - i,
    {
        keys.push(
            Key { first: byte_len(names[i].as_str()), second: 0, name: names[i].clone() },
        );
        i += 1;
    }
    assert(crate::rank::key_views(keys@) =~= length_keys(nv));
    let order = rank(&keys);
    let mut r: Vec<String> = Vec::new();
    let mut k: usize = 0;
    while k < order.len()
        invariant
            k <= order@.len(),
            order@.len() == names@.len(),
            nv == crate::text::views(names@),
            forall|j: int| 0 <= j < order@.len() ==> #[trigger] order@[j] < names@.len(),
            r@.len() == k,
            forall|j: int| 0 <= j < k ==> #[trigger] r@[j]@ == nv[order@[j] as int],
        decreases order@.len() - k,
    {
        r.push(names[order[k]].clone());
        k += 1;
    }
    assert(crate::text::views(r@) =~= by_length(nv)) by {
        assert(crate::rank::ints(order@) == crate::rank::order_of(length_keys(nv)));
        assert forall|j: int| 0 <= j < r@.len() implies crate::text::views(r@)[j] == by_length(
            nv,
        )[j] by {
            assert(crate::rank::ints(order@)[j] == order@[j]);
        }
    }
    r
}

// ---------------------------------------------------------------- the region of a path

/// The first of the regions that is above the path, the root aside.
pub open spec fn first_above(path: Seq<char>, regions: Seq<Seq<char>>) -> Option<int>
    decreases regions.len(),
{
    if regions.len() == 0 {
        None
    } else if first_above(path, regions.drop_last()) is Some {
        first_above(path, regions.drop_last())
    } else if regions.last() != root() && above(regions.last(), path) {
        Some(regions.len() - 1)
    } else {
        None
    }
}

/// The region of a path: the first of the list that is above it; a top-level file is in the root.
pub open spec fn region_of(path: Seq<char>, regions: Seq<Seq<char>>) -> Seq<char> {
    match crate::text::first_of(path, '/') {
        Some(cut) => match first_above(path, regions) {
            Some(i) => regions[i],
            None => path.take(cut),
        },
        None => root(),
    }
}

/// The region that a path belongs to. `regions` is ordered longest first.
pub fn repo_map_region_of(path: &str, regions: &Vec<String>) -> (r: String)
    ensures
        r@ == region_of(path@, crate::text::views(regions@)),
{
    let cs = chars_of(path);
    let cut: usize = match crate::text::first_char(&cs, '/') {
        Some(i) => i,
        None => return "(root)".to_owned(),
    };
    let ghost all = crate::text::views(regions@);
    let mut i: usize = 0;
    while i < regions.len()
        invariant
            all == crate::text::views(regions@),
            cs@ == path@,
            cut < cs@.len(),
            crate::text::first_of(path@, '/') == Some(cut as int),
            i <= regions@.len(),
            first_above(path@, all.take(i as int)) is None,
        decreases regions@.len() - i,
    {
        assert(all.take(i + 1).drop_last() =~= all.take(i as int));
        assert(all.take(i + 1).last() == regions@[i as int]@);
        let d = chars_of(regions[i].as_str());
        if !same(regions[i].as_str(), "(root)") && is_above(&d, &cs) {
            proof {
                lemma_first_above_take(path@, all, i + 1);
            }
            return regions[i].clone();
        }
        i += 1;
    }
    assert(all.take(i as int) =~= all);
    let s = string_of(&cs, 0, cut);
    assert(cs@.subrange(0, cut as int) =~= path@.take(cut as int));
    s
}

proof fn lemma_first_above_take(path: Seq<char>, regions: Seq<Seq<char>>, i: int)
    requires
        0 <= i <= regions.len(),
        first_above(path, regions.take(i)) is Some,
    ensures
        first_above(path, regions) == first_above(path, regions.take(i)),
    decreases regions.len(),
{
    if i < regions.len() {
        assert(regions.drop_last().take(i) =~= regions.take(i));
        lemma_first_above_take(path, regions.drop_last(), i);
    } else {
        assert(regions.take(i) =~= regions);
    }
}

// ---------------------------------------------------------------- dependencies between regions

/// A dependency between two regions that are different and known.
pub open spec fn crosses(sr: Seq<char>, dr: Seq<char>, known: Seq<Seq<char>>) -> bool {
    sr != dr && known.contains(sr) && known.contains(dr)
}

/// A dependency between files of the repository that leads from region `a` to another region `b`, both
/// known.
pub open spec fn joins(
    pair: (String, String),
    regions: Seq<Seq<char>>,
    known: Seq<Seq<char>>,
    a: Seq<char>,
    b: Seq<char>,
) -> bool {
    &&& is_local(pair.0@)
    &&& is_local(pair.1@)
    &&& region_of(pair.0@, regions) == a
    &&& region_of(pair.1@, regions) == b
    &&& crosses(a, b, known)
}

/// The dependencies between files that lead from one known region to another, as pairs of regions:
/// one pair for each of them.
pub open spec fn crossings(
    pairs: Seq<(String, String)>,
    regions: Seq<Seq<char>>,
    known: Seq<Seq<char>>,
) -> Seq<(Seq<char>, Seq<char>)>
    decreases pairs.len(),
{
    if pairs.len() == 0 {
        Seq::empty()
    } else {
        let rest = crossings(pairs.drop_last(), regions, known);
        let (sr, dr) = (region_of(pairs.last().0@, regions), region_of(pairs.last().1@, regions));
        if joins(pairs.last(), regions, known, sr, dr) {
            rest.push((sr, dr))
        } else {
            rest
        }
    }
}

/// The pairs of regions that dependencies between files lead across, one for each dependency.
pub(crate) fn crossings_of(
    pairs: &Vec<(String, String)>,
    regions: &Vec<String>,
    known: &Vec<String>,
) -> (r: Vec<(String, String)>)
    ensures
        pair_views(r@) == crossings(
            pairs@,
            crate::text::views(regions@),
            crate::text::views(known@),
        ),
{
    let mut r: Vec<(String, String)> = Vec::new();
    let ghost rv = crate::text::views(regions@);
    let ghost kv = crate::text::views(known@);
    let mut i: usize = 0;
    assert(pair_views(r@) =~= crossings(pairs@.take(0), rv, kv));
    while i < pairs.len()
        invariant
            i <= pairs@.len(),
            rv == crate::text::views(regions@),
            kv == crate::text::views(known@),
            pair_views(r@) == crossings(pairs@.take(i as int), rv, kv),
        decreases pairs@.len() - i,
    {
        assert(pairs@.take(i + 1).drop_last() =~= pairs@.take(i as int));
        let sp = &pairs[i].0;
        let dp = &pairs[i].1;
        if repo_map_is_local_path(sp.as_str()) && repo_map_is_local_path(dp.as_str()) {
            let sr = repo_map_region_of(sp.as_str(), regions);
            let dr = repo_map_region_of(dp.as_str(), regions);
            if !same(sr.as_str(), dr.as_str()) && list_has(known, sr.as_str()) && list_has(
                known,
                dr.as_str(),
            ) {
                let ghost was = r@;
                let ghost one = (sr@, dr@);
                r.push((sr, dr));
                assert(pair_views(r@) =~= pair_views(was).push(one));
            }
        }
        i += 1;
    }
    assert(pairs@.take(i as int) =~= pairs@);
    r
}

/// The dependencies between files as dependencies between regions, each once; those inside one
/// region, and those that leave the repository or the known regions, are left out.
pub open spec fn region_edges(
    pairs: Seq<(String, String)>,
    regions: Seq<Seq<char>>,
    known: Seq<Seq<char>>,
) -> Seq<(Seq<char>, Seq<char>)>
    decreases pairs.len(),
{
    if pairs.len() == 0 {
        Seq::empty()
    } else {
        let rest = region_edges(pairs.drop_last(), regions, known);
        let (sp, dp) = (pairs.last().0@, pairs.last().1@);
        let (sr, dr) = (region_of(sp, regions), region_of(dp, regions));
        if is_local(sp) && is_local(dp) && crosses(sr, dr, known) && !rest.contains((sr, dr)) {
            rest.push((sr, dr))
        } else {
            rest
        }
    }
}

pub open spec fn pair_views(v: Seq<(String, String)>) -> Seq<(Seq<char>, Seq<char>)> {
    Seq::new(v.len(), |i: int| (v[i].0@, v[i].1@))
}

fn has_pair(v: &Vec<(String, String)>, a: &str, b: &str) -> (r: bool)
    ensures
        r == pair_views(v@).contains((a@, b@)),
{
    let ghost pv = pair_views(v@);
    let mut i: usize = 0;
    while i < v.len()
        invariant
            i <= v@.len(),
            pv == pair_views(v@),
            forall|j: int| 0 <= j < i ==> pv[j] != (a@, b@),
        decreases v@.len() - i,
    {
        assert(pv[i as int] == (v@[i as int].0@, v@[i as int].1@));
        if same(v[i].0.as_str(), a) && same(v[i].1.as_str(), b) {
            return true;
        }
        i += 1;
    }
    false
}

/// The dependencies between regions.
pub fn repo_region_dep_edges(
    pairs: &Vec<(String, String)>,
    regions: &Vec<String>,
    known: &Vec<String>,
) -> (r: Vec<(String, String)>)
    ensures
        pair_views(r@) == region_edges(
            pairs@,
            crate::text::views(regions@),
            crate::text::views(known@),
        ),
{
    let mut r: Vec<(String, String)> = Vec::new();
    let ghost rv = crate::text::views(regions@);
    let ghost kv = crate::text::views(known@);
    let mut i: usize = 0;
    assert(pair_views(r@) =~= region_edges(pairs@.take(0), rv, kv));
    while i < pairs.len()
        invariant
            i <= pairs@.len(),
            rv == crate::text::views(regions@),
            kv == crate::text::views(known@),
            pair_views(r@) == region_edges(pairs@.take(i as int), rv, kv),
        decreases pairs@.len() - i,
    {
        assert(pairs@.take(i + 1).drop_last() =~= pairs@.take(i as int));
        let sp = &pairs[i].0;
        let dp = &pairs[i].1;
        if repo_map_is_local_path(sp.as_str()) && repo_map_is_local_path(dp.as_str()) {
            let sr = repo_map_region_of(sp.as_str(), regions);
            let dr = repo_map_region_of(dp.as_str(), regions);
            if !same(sr.as_str(), dr.as_str()) && list_has(known, sr.as_str()) && list_has(
                known,
                dr.as_str(),
            ) && !has_pair(&r, sr.as_str(), dr.as_str()) {
                let ghost was = r@;
                let ghost one = (sr@, dr@);
                r.push((sr, dr));
                assert(pair_views(r@) =~= pair_views(was).push(one));
            }
        }
        i += 1;
    }
    assert(pairs@.take(i as int) =~= pairs@);
    r
}

// ---------------------------------------------------------------- dependents

/// A set that holds every region with a dependency on `r` or on a member.
pub open spec fn holds_dependents(
    edges: Seq<(Seq<char>, Seq<char>)>,
    r: Seq<char>,
    s: Set<Seq<char>>,
) -> bool {
    forall|i: int|
        0 <= i < edges.len() && (#[trigger] edges[i].1 == r || s.contains(edges[i].1))
            ==> s.contains(edges[i].0)
}

/// The regions that depend on `r`, directly or through others: the least set that holds every
/// region with a dependency on `r` or on a member; without `r` itself.
pub open spec fn dependents(edges: Seq<(Seq<char>, Seq<char>)>, r: Seq<char>) -> Set<Seq<char>> {
    Set::new(
        |a: Seq<char>|
            a != r && forall|s: Set<Seq<char>>| #[trigger]
                holds_dependents(edges, r, s) ==> s.contains(a),
    )
}

/// How many regions depend on `r`.
pub fn dependents_of(edges: &Vec<(String, String)>, r: &str) -> (n: usize)
    ensures
        n == dependents(pair_views(edges@), r@).len(),
        dependents(pair_views(edges@), r@).finite(),
        n <= edges@.len(),
{
    let ghost ev = pair_views(edges@);
    let ghost sources = Seq::new(ev.len(), |i: int| ev[i].0);
    let mut seen: Vec<String> = Vec::new();
    let mut next: usize = 0;
    // The members in order of discovery; those before `next` have been followed.
    let mut started = false;
    while !started || next < seen.len()
        invariant
            ev == pair_views(edges@),
            sources == Seq::new(ev.len(), |i: int| ev[i].0),
            next <= seen@.len() <= sources.len(),
            !started ==> seen@.len() == 0 && next == 0,
            crate::text::views(seen@).no_duplicates(),
            forall|k: int| 0 <= k < seen@.len() ==> sources.contains(#[trigger] seen@[k]@),
            forall|k: int, s: Set<Seq<char>>|
                0 <= k < seen@.len() && #[trigger] holds_dependents(ev, r@, s) ==> s.contains(
                    #[trigger] seen@[k]@,
                ),
            started ==> forall|i: int|
                0 <= i < ev.len() && #[trigger] ev[i].1 == r@ ==> crate::text::views(
                    seen@,
                ).contains(ev[i].0),
            forall|i: int, k: int|
                0 <= i < ev.len() && 0 <= k < next && #[trigger] ev[i].1 == #[trigger] seen@[k]@
                    ==> crate::text::views(seen@).contains(ev[i].0),
        decreases sources.len() - next, (if started { 0int } else { 1int }),
    {
        let cur: String = if started {
            seen[next].clone()
        } else {
            r.to_owned()
        };
        let ghost start = seen@;
        let mut i: usize = 0;
        while i < edges.len()
            invariant
                ev == pair_views(edges@),
                sources == Seq::new(ev.len(), |i: int| ev[i].0),
                i <= edges@.len(),
                start.len() <= seen@.len() <= sources.len(),
                seen@.take(start.len() as int) =~= start,
                !started ==> cur@ == r@,
                started ==> next < start.len() && cur@ == start[next as int]@,
                crate::text::views(seen@).no_duplicates(),
                forall|k: int| 0 <= k < seen@.len() ==> sources.contains(#[trigger] seen@[k]@),
                forall|k: int, s: Set<Seq<char>>|
                    0 <= k < seen@.len() && #[trigger] holds_dependents(ev, r@, s) ==> s.contains(
                        #[trigger] seen@[k]@,
                    ),
                forall|j: int|
                    0 <= j < i && #[trigger] ev[j].1 == cur@ ==> crate::text::views(seen@).contains(
                        ev[j].0,
                    ),
            decreases edges@.len() - i,
        {
            assert(ev[i as int] == (edges@[i as int].0@, edges@[i as int].1@));
            if same(edges[i].1.as_str(), cur.as_str()) {
                let ghost a = edges@[i as int].0@;
                if !list_has(&seen, edges[i].0.as_str()) {
                    let ghost was = seen@;
                    proof {
                        assert(sources[i as int] == a);
                        assert forall|s: Set<Seq<char>>| #[trigger]
                            holds_dependents(ev, r@, s) implies s.contains(a) by {
                            if started {
                                assert(seen@[next as int] == seen@.take(start.len() as int)[next as int]);
                                assert(s.contains(seen@[next as int]@));
                            }
                            assert(ev[i as int].1 == r@ || s.contains(ev[i as int].1));
                        }
                    }
                    seen.push(edges[i].0.clone());
                    proof {
                        crate::text::lemma_views_push(was, seen@.last());
                        assert(crate::text::views(seen@).no_duplicates()) by {
                            let v = crate::text::views(was);
                            let w = crate::text::views(seen@);
                            assert forall|x: int, y: int|
                                0 <= x < w.len() && 0 <= y < w.len() && x != y implies w[x]
                                != w[y] by {
                                if x < v.len() && y < v.len() {
                                    assert(w[x] == v[x] && w[y] == v[y]);
                                } else if x < v.len() {
                                    assert(v.contains(v[x]));
                                } else if y < v.len() {
                                    assert(v.contains(v[y]));
                                }
                            }
                        }
                        assert forall|k: int| 0 <= k < seen@.len() implies sources.contains(
                            #[trigger] seen@[k]@,
                        ) by {
                            if k < was.len() {
                                assert(was[k] == seen@[k]);
                            }
                        }
                        assert forall|k: int, s: Set<Seq<char>>|
                            0 <= k < seen@.len() && #[trigger] holds_dependents(
                                ev,
                                r@,
                                s,
                            ) implies s.contains(#[trigger] seen@[k]@) by {
                            if k < was.len() {
                                assert(was[k] == seen@[k]);
                            }
                        }
                        assert forall|j: int|
                            0 <= j < i + 1 && #[trigger] ev[j].1 == cur@ implies crate::text::views(
                            seen@,
                        ).contains(ev[j].0) by {
                            crate::store::lemma_push_contains(
                                crate::text::views(was),
                                a,
                                ev[j].0,
                            );
                        }
                        let sv = crate::text::views(seen@);
                        assert forall|k: int| 0 <= k < sv.len() implies sources.contains(
                            #[trigger] sv[k],
                        ) by {
                            assert(sv[k] == seen@[k]@);
                        }
                        crate::order::lemma_distinct_within(sv, sources);
                    }
                }
            }
            i += 1;
        }
        proof {
            let sv = crate::text::views(seen@);
            let bv = crate::text::views(start);
            assert forall|x: Seq<char>| bv.contains(x) implies sv.contains(x) by {
                let k = choose|k: int| 0 <= k < bv.len() && bv[k] == x;
                assert(seen@.take(start.len() as int)[k] == start[k]);
                assert(sv[k] == x);
            }
            assert forall|i: int, k: int|
                0 <= i < ev.len() && 0 <= k < next && #[trigger] ev[i].1 == #[trigger] seen@[k]@
                implies sv.contains(ev[i].0) by {
                assert(seen@.take(start.len() as int)[k] == start[k]);
                assert(ev[i].1 == start[k]@);
                assert(bv.contains(ev[i].0));
            }
            if started {
                assert(seen@.take(start.len() as int)[next as int] == start[next as int]);
            }
        }
        if started {
            next += 1;
        } else {
            started = true;
        }
    }
    let ghost sv = crate::text::views(seen@);
    let own = list_has(&seen, r);
    proof {
        assert forall|i: int|
            0 <= i < ev.len() && (#[trigger] ev[i].1 == r@ || sv.to_set().contains(ev[i].1))
            implies sv.to_set().contains(ev[i].0) by {
            if ev[i].1 != r@ {
                let k = choose|k: int| 0 <= k < sv.len() && sv[k] == ev[i].1;
                assert(ev[i].1 == seen@[k]@);
            }
        }
        assert(holds_dependents(ev, r@, sv.to_set()));
        assert forall|a: Seq<char>| dependents(ev, r@).contains(a) <==> sv.to_set().remove(
            r@,
        ).contains(a) by {
            if sv.contains(a) {
                let k = choose|k: int| 0 <= k < sv.len() && sv[k] == a;
                assert(a == seen@[k]@);
            }
        }
        assert(dependents(ev, r@) =~= sv.to_set().remove(r@));
        sv.unique_seq_to_set();
        assert(sv.to_set().finite());
    }
    if own {
        seen.len() - 1
    } else {
        seen.len()
    }
}

// ---------------------------------------------------------------- laws

proof fn lemma_covering(files: Seq<Seq<char>>, f: int, n: int) -> (d: Seq<char>)
    requires
        0 <= f < files.len(),
        0 <= n <= dir_of(files[f]).len(),
        crate::text::last_of(files[f], '/', '/') is Some,
        files[f][n] == '/',
        dir_of(files[f]) != root(),
        !above(root(), files[f]),
        forall|i: int|
            0 <= i < n && files[f][i] == '/' ==> overfull(files, #[trigger] files[f].take(i)),
    ensures
        is_region(files, d),
        above(d, files[f]),
        d != root(),
    decreases dir_of(files[f]).len() - n,
{
    let p = files[f];
    let top = dir_of(p);
    lemma_last_of(p);
    let d = p.take(n);
    assert(above(d, p));
    assert(d != root()) by {
        if d == root() {
            assert(above(root(), p));
        }
    }
    assert(!above(root(), d)) by {
        if above(root(), d) {
            assert(p.take(root().len() as int) =~= d.take(root().len() as int));
            assert(above(root(), p));
        }
    }
    assert(populated(files, d));
    assert(crowded_above(files, d)) by {
        assert forall|i: int| 0 <= i < d.len() && d[i] == '/' implies overfull(
            files,
            #[trigger] d.take(i),
        ) by {
            assert(p[i] == '/');
            assert(d.take(i) =~= p.take(i));
            assert(overfull(files, p.take(i)));
        }
    }
    if !overfull(files, d) {
        d
    } else if n == top.len() {
        assert(dir_of(files[f]) == d);
        d
    } else {
        let m = next_slash(p, n + 1, top.len() as int);
        assert forall|i: int| 0 <= i < m && p[i] == '/' implies overfull(
            files,
            #[trigger] p.take(i),
        ) by {
            if i == n {
                assert(p.take(i) == d);
            }
        }
        lemma_covering(files, f, m)
    }
}

proof fn lemma_last_of(p: Seq<char>)
    ensures
        crate::text::last_of(p, '/', '/') matches Some(i) ==> 0 <= i < p.len() && p[i] == '/' && forall|
            j: int,
        | i < j < p.len() ==> p[j] != '/',
        crate::text::last_of(p, '/', '/') is None ==> forall|j: int| 0 <= j < p.len() ==> p[j] != '/',
    decreases p.len(),
{
    if p.len() > 0 && p.last() != '/' {
        lemma_last_of(p.drop_last());
        assert forall|j: int| 0 <= j < p.len() - 1 implies p[j] == p.drop_last()[j] by {}
    }
}

/// The first slash at or after `from`, at most at `to`.
proof fn next_slash(p: Seq<char>, from: int, to: int) -> (m: int)
    requires
        0 <= from <= to < p.len(),
        p[to] == '/',
    ensures
        from <= m <= to,
        p[m] == '/',
        forall|i: int| from <= i < m ==> p[i] != '/',
    decreases to - from,
{
    if p[from] == '/' {
        from
    } else {
        next_slash(p, from + 1, to)
    }
}

/// The regions cover every file: a file below a directory lies below a region.
pub proof fn law_regions_cover_every_file(files: Seq<Seq<char>>, f: int)
    requires
        0 <= f < files.len(),
        dir_of(files[f]) != root(),
        !above(root(), files[f]),
    ensures
        exists|d: Seq<char>| #[trigger] is_region(files, d) && above(d, files[f]) && d != root(),
{
    let p = files[f];
    lemma_last_of(p);
    let top = dir_of(p).len() as int;
    let n = next_slash(p, 0, top);
    let d = lemma_covering(files, f, n);
    assert(is_region(files, d));
}

/// Two regions never nest unless the outer one is overfull and has files of its own.
pub proof fn law_nested_regions_are_split(files: Seq<Seq<char>>, outer: Seq<char>, inner: Seq<char>)
    requires
        is_region(files, outer),
        is_region(files, inner),
        outer != root(),
        inner != root(),
        above(outer, inner),
    ensures
        overfull(files, outer),
        has_direct(files, outer) || !has_subdir(files, outer),
{
    assert(inner.take(outer.len() as int) == outer);
    assert(overfull(files, inner.take(outer.len() as int)));
}

proof fn lemma_dirs_finite(files: Seq<Seq<char>>)
    ensures
        dir_set(files).finite(),
    decreases files.len(),
{
    if files.len() == 0 {
        assert(dir_set(files) =~= Set::empty());
    } else {
        let rest = files.drop_last();
        let p = files.last();
        lemma_dirs_finite(rest);
        let own = Seq::new(p.len(), |i: int| p.take(i)).to_set();
        let all = dir_set(rest).union(own);
        assert forall|d: Seq<char>| dir_set(files).contains(d) implies all.contains(d) by {
            let k = choose|k: int| 0 <= k < files.len() && above(d, #[trigger] files[k]);
            if k < rest.len() {
                assert(above(d, rest[k]));
            } else {
                let s = Seq::new(p.len(), |i: int| p.take(i));
                assert(s[d.len() as int] == d);
                assert(s.contains(d));
            }
        }
        vstd::set_lib::lemma_set_subset_finite(all, dir_set(files));
    }
}

proof fn lemma_regions_finite(files: Seq<Seq<char>>)
    ensures
        region_set(files).finite(),
{
    lemma_dirs_finite(files);
    let all = dir_set(files).insert(root());
    assert(region_set(files).subset_of(all));
    vstd::set_lib::lemma_set_subset_finite(all, region_set(files));
}

/// The list of regions holds each of them once, the longest name first, those of one length in order.
pub proof fn law_regions_are_in_order(files: Seq<Seq<char>>)
    ensures
        regions(files).to_set() == region_set(files),
        regions(files).no_duplicates(),
        forall|i: int, j: int|
            0 <= i < j < regions(files).len() ==> {
                let (a, b) = (#[trigger] regions(files)[i], #[trigger] regions(files)[j]);
                crate::width::blen(a) > crate::width::blen(b) || (crate::width::blen(a)
                    == crate::width::blen(b) && crate::order::before(a, b))
            },
{
    lemma_regions_finite(files);
    crate::order::law_finite_set_is_sorted(region_set(files));
    let v = crate::order::sorted_of(region_set(files));
    crate::order::lemma_ascending_distinct(v);
    let keys = length_keys(v);
    crate::rank::lemma_order(keys);
    let p = crate::rank::order_of(keys);
    let out = regions(files);
    assert forall|i: int, j: int| 0 <= i < j < out.len() implies ({
        let (a, b) = (#[trigger] out[i], #[trigger] out[j]);
        crate::width::blen(a) > crate::width::blen(b) || (crate::width::blen(a)
            == crate::width::blen(b) && crate::order::before(a, b))
    }) by {
        let (x, y) = (p[i], p[j]);
        assert(crate::rank::ranks(keys, p[i], p[j]));
        crate::rank::lemma_ranks_strict(keys, x, y);
        assert(v[x] != v[y]);
    }
    assert forall|i: int, j: int| 0 <= i < out.len() && 0 <= j < out.len() && i != j implies out[i]
        != out[j] by {
        if i < j {
            crate::order::lemma_before_irreflexive(out[i]);
        } else {
            crate::order::lemma_before_irreflexive(out[j]);
        }
    }
    assert forall|d: Seq<char>| out.to_set().contains(d) <==> region_set(files).contains(d) by {
        if out.contains(d) {
            let i = choose|i: int| 0 <= i < out.len() && out[i] == d;
            assert(v[p[i]] == d);
            assert(v.to_set().contains(d));
        }
        if region_set(files).contains(d) {
            assert(v.to_set().contains(d));
            let x = choose|x: int| 0 <= x < v.len() && v[x] == d;
            assert(p.contains(x));
            let i = choose|i: int| 0 <= i < p.len() && p[i] == x;
            assert(out[i] == d);
        }
    }
    assert(out.to_set() =~= region_set(files));
}

pub(crate) proof fn lemma_first_above(path: Seq<char>, v: Seq<Seq<char>>)
    ensures
        first_above(path, v) is None ==> forall|j: int|
            0 <= j < v.len() ==> v[j] == root() || !above(#[trigger] v[j], path),
        first_above(path, v) matches Some(i) ==> 0 <= i < v.len() && v[i] != root() && above(
            v[i],
            path,
        ) && forall|j: int| 0 <= j < i ==> v[j] == root() || !above(#[trigger] v[j], path),
    decreases v.len(),
{
    if v.len() > 0 {
        let p = v.drop_last();
        lemma_first_above(path, p);
        assert forall|j: int| 0 <= j < p.len() implies v[j] == p[j] by {}
    }
}

pub(crate) proof fn lemma_first_of(p: Seq<char>)
    ensures
        crate::text::first_of(p, '/') is None ==> !p.contains('/'),
        crate::text::first_of(p, '/') matches Some(i) ==> 0 <= i < p.len() && p[i] == '/' && forall|
            j: int,
        | 0 <= j < i ==> p[j] != '/',
    decreases p.len(),
{
    if p.len() > 0 {
        let q = p.drop_last();
        lemma_first_of(q);
        assert forall|j: int| 0 <= j < q.len() implies p[j] == q[j] by {}
        if crate::text::first_of(p, '/') is None && p.contains('/') {
            let j = choose|j: int| 0 <= j < p.len() && p[j] == '/';
            assert(q[j] == '/');
        }
    }
}

/// Every file has a region in the list of regions: the root for a top-level file, else a directory
/// above it, and of those the nearest.
pub proof fn law_each_file_has_its_region(files: Seq<Seq<char>>, f: int)
    requires
        0 <= f < files.len(),
    ensures
        regions(files).contains(region_of(files[f], regions(files))),
        !files[f].contains('/') ==> region_of(files[f], regions(files)) == root(),
        files[f].contains('/') ==> above(region_of(files[f], regions(files)), files[f]),
        forall|d: Seq<char>| #[trigger]
            regions(files).contains(d) && d != root() && above(d, files[f]) ==> crate::width::blen(
                d,
            ) <= crate::width::blen(region_of(files[f], regions(files))),
{
    let p = files[f];
    let out = regions(files);
    law_regions_are_in_order(files);
    lemma_first_of(p);
    lemma_first_above(p, out);
    lemma_last_of(p);
    let r = region_of(p, out);
    if !p.contains('/') {
        if let Some(i) = crate::text::last_of(p, '/', '/') {
            assert(p.contains(p[i]));
        }
        assert(dir_of(p) == root());
        assert(has_direct(files, root()));
        assert(region_set(files).contains(root()));
        assert(out.to_set().contains(root()));
        assert forall|d: Seq<char>| !above(d, p) by {
            if above(d, p) {
                assert(p.contains(p[d.len() as int]));
            }
        }
    } else if let Some(i) = first_above(p, out) {
        assert(r == out[i]);
        assert forall|d: Seq<char>| #[trigger]
            out.contains(d) && d != root() && above(d, p) implies crate::width::blen(d)
            <= crate::width::blen(r) by {
            let j = choose|j: int| 0 <= j < out.len() && out[j] == d;
            if i < j {
                assert(crate::width::blen(out[i]) >= crate::width::blen(out[j]));
            }
        }
    } else {
        let cut = crate::text::first_of(p, '/').unwrap();
        assert forall|d: Seq<char>| #[trigger] out.contains(d) && above(d, p) implies d == root() by {
            let j = choose|j: int| 0 <= j < out.len() && out[j] == d;
            assert(out[j] == root() || !above(out[j], p));
        }
        if !above(root(), p) {
            let last = crate::text::last_of(p, '/', '/').unwrap();
            if dir_of(p) == root() {
                assert(above(root(), p));
            }
            law_regions_cover_every_file(files, f);
            let d = choose|d: Seq<char>| #[trigger]
                is_region(files, d) && above(d, files[f]) && d != root();
            assert(region_set(files).contains(d));
            assert(out.to_set().contains(d));
        }
        assert(above(root(), p));
        reveal_strlit("(root)");
        assert forall|j: int| 0 <= j < root().len() implies p[j] != '/' by {
            assert(p.take(root().len() as int)[j] == root()[j]);
        }
        assert(cut == root().len());
        assert(r == root());
        assert(populated(files, root()));
        assert(region_set(files).contains(root()));
        assert(out.to_set().contains(root()));
    }
}

} // verus!
