//! Ignore rules in the syntax of `gitignore`, matched by the `ignore` crate.

use vstd::prelude::*;

use crate::split::lines_of;
use crate::text::{chars_of, has_prefix, string_of};

verus! {

/// A matcher in the making.
#[verifier::external_type_specification]
#[verifier::external_body]
pub struct ExGitignoreBuilder(ignore::gitignore::GitignoreBuilder);

/// A matcher.
#[verifier::external_type_specification]
#[verifier::external_body]
pub struct ExGitignore(ignore::gitignore::Gitignore);

/// The directory that a matcher in the making was made for, as it was given. The builder itself keeps
/// it without a leading `./`.
pub uninterp spec fn builder_root(b: ignore::gitignore::GitignoreBuilder) -> Seq<char>;

/// The lines that a matcher in the making was given, all of them in order. The builder itself keeps
/// only those that are rules.
pub uninterp spec fn builder_lines(b: ignore::gitignore::GitignoreBuilder) -> Seq<Seq<char>>;

/// The directory that a matcher was made for, as it was given to its builder. The matcher itself keeps
/// it without a leading `./`, and keeps none where it has no rules.
pub uninterp spec fn matcher_root(m: ignore::gitignore::Gitignore) -> Seq<char>;

/// The lines that a matcher was made from, as they were given to its builder. The matcher itself keeps
/// only those that are rules.
pub uninterp spec fn matcher_lines(m: ignore::gitignore::Gitignore) -> Seq<Seq<char>>;

/// Whether the lines make a matcher.
pub uninterp spec fn rules_build(root: Seq<char>, lines: Seq<Seq<char>>) -> bool;

/// What the rules say of a file: `Some(true)` where they ignore it, `Some(false)` where they
/// include it again, `None` where they are silent.
pub uninterp spec fn rules_say(
    root: Seq<char>,
    lines: Seq<Seq<char>>,
    path: Seq<char>,
) -> Option<bool>;

/// `GitignoreBuilder::new`: a matcher in the making for the directory, without lines.
#[verifier::external_body]
fn new_builder(root: &str) -> (b: ignore::gitignore::GitignoreBuilder)
    ensures
        builder_root(b) == root@,
        builder_lines(b) == Seq::<Seq<char>>::empty(),
{
    ignore::gitignore::GitignoreBuilder::new(root)
}

/// `GitignoreBuilder::add_line`: one more line. A line that is no rule leaves the rules as they
/// are, and its error is dropped.
#[verifier::external_body]
fn add_line(b: &mut ignore::gitignore::GitignoreBuilder, line: &str)
    ensures
        builder_root(*final(b)) == builder_root(*old(b)),
        builder_lines(*final(b)) == builder_lines(*old(b)).push(line@),
{
    let _ = b.add_line(None, line);
}

/// `GitignoreBuilder::build`: a matcher of the directory and the lines given so far, or nothing
/// where they make none. Whether they do is a function of the two alone.
#[verifier::external_body]
fn build(b: &ignore::gitignore::GitignoreBuilder) -> (r: Option<ignore::gitignore::Gitignore>)
    ensures
        r is Some == rules_build(builder_root(*b), builder_lines(*b)),
        r matches Some(m) ==> matcher_root(m) == builder_root(*b) && matcher_lines(m)
            == builder_lines(*b),
{
    b.build().ok()
}

/// The path lies below the directory, whatever follows in it. One that starts at the root of the file
/// system does not. Nor does one that starts with `.///` where the directory is empty: without its
/// `./` and one more slash it would start at the root of the file system.
pub open spec fn is_below(root: Seq<char>, path: Seq<char>) -> bool {
    !crate::text::starts_with(path, "/"@) && !(root.len() == 0 && crate::text::starts_with(
        path,
        ".///"@,
    ))
}

fn below(root: &str, path: &str) -> (r: bool)
    ensures
        r == is_below(root@, path@),
{
    !has_prefix(path, "/") && !(root.is_empty() && has_prefix(path, ".///"))
}

/// `Gitignore::matched_path_or_any_parents`: what the rules say of a file below the directory of
/// the matcher, by the file itself or the nearest directory above it that a rule matches. It is a
/// function of the directory, the lines and the path alone. A path that is not below the directory is
/// left out: the outside function panics on it. Paths are those of Unix, with `/` between their parts;
/// elsewhere a path may start with a drive or a backslash, of which nothing is said here.
#[verifier::external_body]
fn verdict(m: &ignore::gitignore::Gitignore, root: &str, path: &str) -> (r: Option<bool>)
    requires
        root@ == matcher_root(*m),
        is_below(root@, path@),
    ensures
        r == rules_say(matcher_root(*m), matcher_lines(*m), path@),
{
    match m.matched_path_or_any_parents(std::path::Path::new(root).join(path), false) {
        ignore::Match::None => None,
        ignore::Match::Ignore(_) => Some(true),
        ignore::Match::Whitelist(_) => Some(false),
    }
}

/// The byte-order mark.
pub open spec fn is_mark(c: char) -> bool {
    c == '\u{feff}'
}

/// A text without the byte-order marks at its start.
pub open spec fn unmarked(s: Seq<char>) -> Seq<char>
    decreases s.len(),
{
    if s.len() > 0 && is_mark(s[0]) {
        unmarked(s.drop_first())
    } else {
        s
    }
}

/// The lines of a rule file: the first without a byte-order mark.
pub open spec fn rule_lines(contents: Seq<char>) -> Seq<Seq<char>> {
    let ls = crate::split::lines(contents);
    Seq::new(
        ls.len(),
        |i: int|
            if i == 0 {
                unmarked(ls[i])
            } else {
                ls[i]
            },
    )
}

fn unmark(s: &str) -> (r: String)
    ensures
        r@ == unmarked(s@),
{
    let cs = chars_of(s);
    let n: usize = cs.len();
    let mut i: usize = 0;
    assert(cs@.skip(0) =~= cs@);
    while i < n && cs[i] == '\u{feff}'
        invariant
            n == cs@.len(),
            cs@ == s@,
            i <= n,
            unmarked(s@) == unmarked(cs@.skip(i as int)),
        decreases n - i,
    {
        i += 1;
        assert(cs@.skip(i - 1).drop_first() =~= cs@.skip(i as int));
    }
    let r = string_of(&cs, i, n);
    assert(cs@.subrange(i as int, n as int) =~= cs@.skip(i as int));
    r
}

/// What a rule file says of a file: nothing where there is no rule file, where it makes no
/// matcher, or where the path is not below the directory.
pub open spec fn ruling(root: Seq<char>, contents: Option<Seq<char>>, path: Seq<char>) -> Option<
    bool,
> {
    match contents {
        Some(c) => if rules_build(root, rule_lines(c)) && is_below(root, path) {
            rules_say(root, rule_lines(c), path)
        } else {
            None
        },
        None => None,
    }
}

/// The matcher of a rule file.
pub(crate) fn build_travsrignore_matcher(root: &str, contents: Option<&str>) -> (r: Option<
    ignore::gitignore::Gitignore,
>)
    ensures
        r is Some == (contents matches Some(c) && rules_build(root@, rule_lines(c@))),
        r matches Some(m) ==> matcher_root(m) == root@ && (contents matches Some(c)
            && matcher_lines(m) == rule_lines(c@)),
{
    let text = match contents {
        Some(c) => c,
        None => return None,
    };
    let ls = lines_of(text);
    let ghost want = rule_lines(text@);
    let ghost lv = crate::split::lines(text@);
    assert(lv.len() == ls@.len());
    let mut b = new_builder(root);
    let mut i: usize = 0;
    assert(want.take(0) =~= Seq::<Seq<char>>::empty());
    while i < ls.len()
        invariant
            i <= ls@.len(),
            lv == crate::text::views(ls@),
            lv == crate::split::lines(text@),
            want == rule_lines(text@),
            want.len() == ls@.len(),
            builder_root(b) == root@,
            builder_lines(b) == want.take(i as int),
        decreases ls@.len() - i,
    {
        assert(lv[i as int] == ls@[i as int]@);
        assert(want.take(i + 1) =~= want.take(i as int).push(want[i as int]));
        if i == 0 {
            let first = unmark(ls[i].as_str());
            add_line(&mut b, first.as_str());
        } else {
            add_line(&mut b, ls[i].as_str());
        }
        i += 1;
    }
    assert(want.take(i as int) =~= want);
    build(&b)
}

/// What a matcher says of a path.
pub(crate) fn rule_on(m: &Option<ignore::gitignore::Gitignore>, root: &str, path: &str) -> (r:
    Option<bool>)
    requires
        *m matches Some(x) ==> matcher_root(x) == root@,
    ensures
        r == (match *m {
            Some(x) => if is_below(root@, path@) {
                rules_say(root@, matcher_lines(x), path@)
            } else {
                None
            },
            None => None,
        }),
{
    match m {
        Some(x) => if below(root, path) {
            verdict(x, root, path)
        } else {
            None
        },
        None => None,
    }
}

} // verus!
