//! A line that an answer prints for a node is a request for that node.

use vstd::prelude::*;

use crate::snippets::TokenView;
use crate::store::Node;

verus! {

proof fn lemma_split_none(s: Seq<char>, c: char)
    requires
        !s.contains(c),
    ensures
        crate::split::split(s, c, c) == seq![s],
    decreases s.len(),
{
    if s.len() > 0 {
        let p = s.drop_last();
        assert forall|i: int| 0 <= i < p.len() implies p[i] != c by {
            assert(s[i] == p[i]);
        }
        lemma_split_none(p, c);
        assert(s.last() != c);
        assert(p.push(s.last()) =~= s);
        assert(crate::split::split(s, c, c) =~= seq![s]);
    } else {
        assert(s =~= Seq::<char>::empty());
        assert(crate::split::split(s, c, c) =~= seq![s]);
    }
}

proof fn lemma_split_two(a: Seq<char>, c: char, b: Seq<char>)
    requires
        !a.contains(c),
        !b.contains(c),
    ensures
        crate::split::split(a.push(c) + b, c, c) == seq![a, b],
    decreases b.len(),
{
    let s = a.push(c) + b;
    if b.len() == 0 {
        assert(s =~= a.push(c));
        assert(s.drop_last() =~= a);
        lemma_split_none(a, c);
        assert(b =~= Seq::<char>::empty());
        assert(crate::split::split(s, c, c) =~= seq![a, b]);
    } else {
        let p = b.drop_last();
        assert forall|i: int| 0 <= i < p.len() implies p[i] != c by {
            assert(b[i] == p[i]);
        }
        assert(s.drop_last() =~= a.push(c) + p);
        lemma_split_two(a, c, p);
        assert(s.last() == b.last());
        assert(b.contains(b.last()));
        assert(p.push(b.last()) =~= b);
        assert(crate::split::split(s, c, c) =~= seq![a, b]);
    }
}

proof fn lemma_trim_start_keeps(s: Seq<char>)
    ensures
        forall|c: char|
            s.contains(c) && !crate::split::is_space(c) ==> #[trigger] crate::split::trim_start(
                s,
            ).contains(c),
    decreases s.len(),
{
    if s.len() > 0 && crate::split::is_space(s[0]) {
        let t = s.drop_first();
        lemma_trim_start_keeps(t);
        assert forall|c: char|
            s.contains(c) && !crate::split::is_space(c) implies #[trigger] crate::split::trim_start(
            s,
        ).contains(c) by {
            let i = choose|i: int| 0 <= i < s.len() && s[i] == c;
            assert(t[i - 1] == c);
            assert(t.contains(c));
            assert(crate::split::trim_start(t).contains(c));
        }
    }
}

proof fn lemma_trim_end_keeps(s: Seq<char>)
    ensures
        forall|c: char|
            s.contains(c) && !crate::split::is_space(c) ==> #[trigger] crate::split::trim_end(
                s,
            ).contains(c),
    decreases s.len(),
{
    if s.len() > 0 && crate::split::is_space(s.last()) {
        let t = s.drop_last();
        lemma_trim_end_keeps(t);
        assert forall|c: char|
            s.contains(c) && !crate::split::is_space(c) implies #[trigger] crate::split::trim_end(
            s,
        ).contains(c) by {
            let i = choose|i: int| 0 <= i < s.len() && s[i] == c;
            assert(t[i] == c);
            assert(t.contains(c));
            assert(crate::split::trim_end(t).contains(c));
        }
    }
}

proof fn lemma_trim_keeps(s: Seq<char>, c: char)
    requires
        s.contains(c),
        !crate::split::is_space(c),
    ensures
        crate::split::trim(s).contains(c),
{
    lemma_trim_start_keeps(s);
    lemma_trim_end_keeps(crate::split::trim_start(s));
    assert(crate::split::trim_start(s).contains(c));
}

/// Text without white space at its ends is not changed by trimming.
proof fn lemma_trimmed(s: Seq<char>)
    requires
        s.len() > 0,
        !crate::split::is_space(s[0]),
        !crate::split::is_space(s.last()),
    ensures
        crate::split::trim(s) == s,
{
}

/// Text that trimming does not change has no white space at its ends.
proof fn lemma_trim_ends(s: Seq<char>)
    requires
        crate::split::trim(s) == s,
        s.len() > 0,
    ensures
        !crate::split::is_space(s[0]),
        !crate::split::is_space(s.last()),
{
    let t = crate::split::trim_start(s);
    lemma_trim_start_len(s);
    lemma_trim_end_len(t);
    if crate::split::is_space(s[0]) {
        lemma_trim_start_len(s.drop_first());
    }
    if crate::split::is_space(s.last()) {
        assert(t == s);
        lemma_trim_end_len(s.drop_last());
    }
}

proof fn lemma_trim_start_len(s: Seq<char>)
    ensures
        crate::split::trim_start(s).len() <= s.len(),
        crate::split::trim_start(s).len() == s.len() ==> crate::split::trim_start(s) == s,
    decreases s.len(),
{
    if s.len() > 0 && crate::split::is_space(s[0]) {
        lemma_trim_start_len(s.drop_first());
    }
}

proof fn lemma_trim_end_len(s: Seq<char>)
    ensures
        crate::split::trim_end(s).len() <= s.len(),
    decreases s.len(),
{
    if s.len() > 0 && crate::split::is_space(s.last()) {
        lemma_trim_end_len(s.drop_last());
    }
}

/// The first place of a pattern of two characters behind text that does not hold it.
proof fn lemma_up_to_two(a: Seq<char>, p: Seq<char>, b: Seq<char>)
    requires
        p.len() == 2,
        p[0] != p[1],
        !crate::text::contains(a, p),
        b.len() >= 2,
        b.take(2) == p,
    ensures
        crate::snippets::up_to(a + b, p) == a,
        crate::text::contains(a + b, p),
{
    let s = a + b;
    crate::text::lemma_contains(a, p);
    crate::text::lemma_find_from(s, p, 0);
    assert(s.subrange(a.len() as int, a.len() as int + 2) =~= p) by {
        assert(s[a.len() as int] == b.take(2)[0]);
        assert(s[a.len() as int + 1] == b.take(2)[1]);
    }
    assert(crate::text::matches_at(s, p, a.len() as int));
    assert forall|j: int| 0 <= j < a.len() implies !crate::text::matches_at(s, p, j) by {
        if crate::text::matches_at(s, p, j) {
            assert(s.subrange(j, j + 2)[0] == s[j]);
            assert(s.subrange(j, j + 2)[1] == s[j + 1]);
            if j + 2 <= a.len() {
                assert(a.subrange(j, j + 2) =~= p);
                assert(crate::text::matches_at(a, p, j));
            } else {
                assert(s[j + 1] == b.take(2)[0]);
            }
        }
    }
    assert(s.take(a.len() as int) =~= a);
}

/// The first place of a pattern that holds a character which the text holds once.
proof fn lemma_find_at(s: Seq<char>, p: Seq<char>, i: int, c: char, k: int)
    requires
        crate::text::matches_at(s, p, i),
        0 <= k < p.len(),
        p[k] == c,
        forall|j: int| 0 <= j < s.len() && s[j] == c ==> j == i + k,
    ensures
        crate::text::find_from(s, p, 0) == Some(i),
{
    crate::text::lemma_find_from(s, p, 0);
    assert forall|j: int| 0 <= j < i implies !crate::text::matches_at(s, p, j) by {
        if crate::text::matches_at(s, p, j) {
            assert(s.subrange(j, j + p.len())[k] == s[j + k]);
        }
    }
}

proof fn lemma_dec(n: nat)
    ensures
        crate::text::dec(n).len() > 0,
        crate::snippets::all_digits(crate::text::dec(n)),
    decreases n,
{
    if n >= 10 {
        lemma_dec(n / 10);
    }
    let d = crate::text::dec(n);
    assert forall|i: int| 0 <= i < d.len() implies crate::snippets::is_digit(#[trigger] d[i]) by {
        if n >= 10 && i < d.len() - 1 {
            assert(d[i] == crate::text::dec(n / 10)[i]);
            assert(crate::snippets::is_digit(crate::text::dec(n / 10)[i]));
        }
    }
}

proof fn lemma_last_colon(path: Seq<char>, digits: Seq<char>)
    requires
        crate::snippets::all_digits(digits),
    ensures
        crate::text::last_of(path.push(':') + digits, ':', ':') == Some(path.len() as int),
    decreases digits.len(),
{
    let s = path.push(':') + digits;
    if digits.len() == 0 {
        assert(s =~= path.push(':'));
    } else {
        let d = digits.drop_last();
        assert forall|i: int| 0 <= i < d.len() implies crate::snippets::is_digit(#[trigger] d[i]) by {
            assert(crate::snippets::is_digit(digits[i]));
        }
        lemma_last_colon(path, d);
        assert(s.drop_last() =~= path.push(':') + d);
        assert(crate::snippets::is_digit(digits[digits.len() - 1]));
        assert(s.last() == digits.last());
    }
}

proof fn lemma_no_dash(digits: Seq<char>)
    requires
        crate::snippets::all_digits(digits),
    ensures
        crate::text::first_of(digits, '-') is None,
    decreases digits.len(),
{
    if digits.len() > 0 {
        let d = digits.drop_last();
        assert forall|i: int| 0 <= i < d.len() implies crate::snippets::is_digit(#[trigger] d[i]) by {
            assert(crate::snippets::is_digit(digits[i]));
        }
        lemma_no_dash(d);
        assert(crate::snippets::is_digit(digits[digits.len() - 1]));
    }
}

/// A printed line number is taken off a path.
proof fn lemma_line_taken_off(path: Seq<char>, line: u32)
    ensures
        crate::snippets::without_locator(path + crate::callers::line_suffix(Some(line))) == path,
{
    let d = crate::text::dec(line as nat);
    lemma_dec(line as nat);
    reveal_strlit(":");
    assert(":"@ =~= seq![':']);
    let s = path + crate::callers::line_suffix(Some(line));
    assert(s =~= path.push(':') + d);
    lemma_last_colon(path, d);
    lemma_no_dash(d);
    assert(s.skip(path.len() as int + 1) =~= d);
    assert(s.take(path.len() as int) =~= path);
}

/// What is printed of a node before its first bracket.
pub open spec fn printed_place(n: Node) -> Seq<char> {
    n.path@ + crate::callers::line_suffix(n.line)
}

/// A node whose line can be read back: no part holds what separates the parts or the requests.
pub open spec fn is_readable(n: Node, rest: Seq<char>) -> bool {
    let place = printed_place(n);
    &&& n.signature@.len() > 0
    &&& crate::split::trim(n.signature@) == n.signature@
    &&& !crate::text::contains(n.signature@, " ("@)
    &&& n.path@.len() > 0
    &&& crate::split::trim(place) == place
    &&& !crate::text::contains(place, " ["@)
    &&& n.line is None ==> crate::snippets::without_locator(n.path@) == n.path@
    &&& rest.len() > 0 || place.contains('/') || place.contains('.')
    &&& !n.signature@.contains(',') && !n.kind@.contains(',') && !n.path@.contains(',')
        && !rest.contains(',')
    &&& !n.signature@.contains('\n') && !n.kind@.contains('\n') && !n.path@.contains('\n')
        && !rest.contains('\n')
    &&& !crate::text::contains(
        n.signature@ + " ("@ + n.kind@ + "), "@ + place + rest,
        " \u{2014} "@,
    )
}

proof fn lemma_no_char_concat(a: Seq<char>, b: Seq<char>, c: char)
    requires
        !a.contains(c),
        !b.contains(c),
    ensures
        !(a + b).contains(c),
{
    let s = a + b;
    assert forall|i: int| 0 <= i < s.len() implies s[i] != c by {
        if i < a.len() {
            assert(a[i] == s[i]);
        } else {
            assert(b[i - a.len()] == s[i]);
        }
    }
}

proof fn lemma_place_has_no(n: Node, c: char)
    requires
        !n.path@.contains(c),
        c == ',' || c == '\n',
    ensures
        !printed_place(n).contains(c),
{
    let l = crate::callers::line_suffix(n.line);
    if let Some(x) = n.line {
        lemma_dec(x as nat);
        let d = crate::text::dec(x as nat);
        reveal_strlit(":");
        assert forall|i: int| 0 <= i < l.len() implies l[i] != c by {
            if i > 0 {
                assert(l[i] == d[i - 1]);
                assert(crate::snippets::is_digit(d[i - 1]));
            } else {
                assert(l[0] == ':');
            }
        }
    }
    lemma_no_char_concat(n.path@, l, c);
}

/// The first half of a line: the signature and the kind.
spec fn first_half(n: Node) -> Seq<char> {
    n.signature@ + " ("@ + n.kind@ + ")"@
}

/// The second half of a line: the place and what follows.
spec fn second_half(n: Node, rest: Seq<char>) -> Seq<char> {
    " "@ + printed_place(n) + rest
}

proof fn lemma_halves(n: Node, rest: Seq<char>)
    ensures
        n.signature@ + " ("@ + n.kind@ + "), "@ + printed_place(n) + rest == first_half(n).push(',')
            + second_half(n, rest),
        first_half(n).len() > 0,
        first_half(n).last() == ')',
        second_half(n, rest).len() > 0,
        second_half(n, rest)[0] == ' ',
{
    reveal_strlit(" (");
    reveal_strlit(")");
    reveal_strlit("), ");
    reveal_strlit(" ");
    assert(n.signature@ + " ("@ + n.kind@ + "), "@ + printed_place(n) + rest =~= first_half(
        n,
    ).push(',') + second_half(n, rest));
}

/// The signature is what stands before the kind.
proof fn lemma_sig_half(n: Node)
    requires
        crate::split::trim(n.signature@) == n.signature@,
        !crate::text::contains(n.signature@, " ("@),
    ensures
        crate::snippets::header_sig(first_half(n)) == n.signature@,
        crate::text::contains(first_half(n), " ("@),
{
    reveal_strlit(" (");
    let tail = " ("@ + n.kind@ + ")"@;
    assert(first_half(n) =~= n.signature@ + tail);
    assert(tail.take(2) =~= " ("@);
    lemma_up_to_two(n.signature@, " ("@, tail);
}

/// The path is what stands before the first bracket, without the line.
proof fn lemma_path_half(n: Node, rest: Seq<char>)
    requires
        is_readable(n, rest),
        rest.len() == 0 || crate::text::starts_with(rest, " ["@),
    ensures
        crate::snippets::header_path(printed_place(n) + rest) == n.path@,
        rest.len() > 0 ==> crate::text::contains(second_half(n, rest), " ["@),
{
    reveal_strlit(" [");
    reveal_strlit(" ");
    let place = printed_place(n);
    if rest.len() == 0 {
        assert(place + rest =~= place);
    } else {
        assert(rest.subrange(0, 2) =~= rest.take(2));
        lemma_up_to_two(place, " ["@, rest);
        let h = second_half(n, rest);
        let at = 1 + place.len() as int;
        assert(h.subrange(at, at + 2) =~= " ["@) by {
            assert(h[at] == rest.take(2)[0]);
            assert(h[at + 1] == rest.take(2)[1]);
        }
        crate::text::lemma_contains(h, " ["@);
        assert(crate::text::matches_at(h, " ["@, at));
    }
    match n.line {
        Some(l) => {
            lemma_line_taken_off(n.path@, l);
        },
        None => {
            assert(place =~= n.path@);
        },
    }
}

/// Text with a bracket is no number.
proof fn lemma_no_number(t: Seq<char>, max: nat)
    requires
        t.contains(')'),
    ensures
        crate::snippets::number(t, max) is None,
{
    let d = crate::snippets::number_digits(t);
    let j = choose|j: int| 0 <= j < t.len() && t[j] == ')';
    if crate::snippets::all_digits(d) {
        if t[0] == '+' {
            assert(d[j - 1] == ')');
            assert(crate::snippets::is_digit(d[j - 1]));
        } else {
            assert(crate::snippets::is_digit(d[j]));
        }
    }
}

/// Text with a bracket is no id.
proof fn lemma_no_id(h: Seq<char>, close: int)
    requires
        0 <= close < h.len(),
        h[close] == ')',
    ensures
        crate::snippets::id_token(h) is None,
{
    reveal_strlit("nodeId:");
    if crate::text::after_prefix(h, "nodeId:"@) is Some {
        let tail = crate::text::after_prefix(h, "nodeId:"@).unwrap();
        assert(tail =~= h.skip(7));
        assert(h.subrange(0, 7) == "nodeId:"@);
        if close < 7 {
            assert(h.subrange(0, 7)[close] == ')');
        }
        assert(tail[close - 7] == ')');
        assert(tail.contains(')'));
        lemma_trim_keeps(tail, ')');
        lemma_no_number(crate::split::trim(tail), u64::MAX as nat);
    }
}

/// A line is the request for its node.
proof fn lemma_classified(n: Node, rest: Seq<char>, h: Seq<char>)
    requires
        is_readable(n, rest),
        rest.len() == 0 || crate::text::starts_with(rest, " ["@),
        h == first_half(n).push(',') + second_half(n, rest),
        h == n.signature@ + " ("@ + n.kind@ + "), "@ + printed_place(n) + rest,
        !first_half(n).contains(','),
        !second_half(n, rest).contains(','),
    ensures
        crate::snippets::classified(h) == (TokenView::FullHeader {
            sig: n.signature@,
            path: n.path@,
        }),
{
    let a = first_half(n);
    let b = second_half(n, rest);
    lemma_halves(n, rest);
    lemma_sig_half(n);
    lemma_path_half(n, rest);
    reveal_strlit("), ");
    reveal_strlit(" (");
    reveal_strlit(" ");
    let i = a.len() as int - 1;
    assert(h.subrange(i, i + 3) =~= "), "@) by {
        assert(h[i] == a[i]);
        assert(h[i + 1] == ',');
        assert(h[i + 2] == b[0]);
    }
    assert(crate::text::matches_at(h, "), "@, i));
    assert forall|j: int| 0 <= j < h.len() && h[j] == ',' implies j == i + 1 by {
        if j < a.len() {
            assert(a[j] == h[j]);
        } else if j > a.len() {
            assert(b[j - a.len() - 1] == h[j]);
        }
    }
    lemma_find_at(h, "), "@, i, ',', 1);
    assert(h.take(i + 1) =~= a);
    assert(h.skip(i + 3) =~= printed_place(n) + rest);
    assert(crate::snippets::header_halves(h) == Some((a, printed_place(n) + rest)));
    lemma_no_id(h, i);
}

/// A line of this form is read back as a request for its node, and for nothing else.
proof fn lemma_reads_back(n: Node, rest: Seq<char>)
    requires
        is_readable(n, rest),
        rest.len() == 0 || (crate::text::starts_with(rest, " ["@) && rest.last() == ']'),
    ensures
        crate::snippets::tokens(
            n.signature@ + " ("@ + n.kind@ + "), "@ + printed_place(n) + rest,
        ) == seq![TokenView::FullHeader { sig: n.signature@, path: n.path@ }],
{
    let a = first_half(n);
    let b = second_half(n, rest);
    let h = n.signature@ + " ("@ + n.kind@ + "), "@ + printed_place(n) + rest;
    let place = printed_place(n);
    lemma_halves(n, rest);
    lemma_sig_half(n);
    lemma_path_half(n, rest);
    reveal_strlit(" (");
    reveal_strlit(")");
    reveal_strlit(" ");
    reveal_strlit(",");
    lemma_place_has_no(n, ',');
    lemma_place_has_no(n, '\n');
    lemma_no_char_concat(n.signature@, " ("@, ',');
    lemma_no_char_concat(n.signature@ + " ("@, n.kind@, ',');
    lemma_no_char_concat(n.signature@ + " ("@ + n.kind@, ")"@, ',');
    lemma_no_char_concat(" "@, place, ',');
    lemma_no_char_concat(" "@ + place, rest, ',');
    lemma_no_char_concat(n.signature@, " ("@, '\n');
    lemma_no_char_concat(n.signature@ + " ("@, n.kind@, '\n');
    lemma_no_char_concat(n.signature@ + " ("@ + n.kind@, ")"@, '\n');
    lemma_no_char_concat(" "@, place, '\n');
    lemma_no_char_concat(" "@ + place, rest, '\n');
    lemma_no_char_concat(a, ","@, '\n');
    lemma_no_char_concat(a + ","@, b, '\n');
    assert(a + ","@ =~= a.push(','));
    lemma_split_none(h, '\n');
    lemma_split_two(a, ',', b);
    let pieces = seq![a, b];
    if rest.len() == 0 {
        if place.contains('/') {
            let i = choose|i: int| 0 <= i < place.len() && place[i] == '/';
            assert(b[i + 1] == '/');
            assert(b.contains('/'));
        } else {
            let i = choose|i: int| 0 <= i < place.len() && place[i] == '.';
            assert(b[i + 1] == '.');
            assert(b.contains('.'));
        }
    }
    assert(crate::snippets::is_head(a) && crate::snippets::is_tail(b));
    assert(pieces.skip(2) =~= Seq::<Seq<char>>::empty());
    assert(a + ","@ + b =~= h);
    reveal_with_fuel(crate::snippets::rejoined, 2);
    assert(crate::snippets::rejoined(pieces) =~= seq![h]);
    lemma_trim_ends(n.signature@);
    lemma_trim_ends(place);
    assert(h[0] == n.signature@[0]);
    assert(h.last() == if rest.len() > 0 {
        rest.last()
    } else {
        place.last()
    });
    lemma_trimmed(h);
    lemma_classified(n, rest, h);
    reveal_with_fuel(crate::snippets::line_tokens, 2);
    assert(seq![h].drop_last() =~= Seq::<Seq<char>>::empty());
    assert(crate::snippets::line_tokens(seq![h]) =~= seq![
        TokenView::FullHeader { sig: n.signature@, path: n.path@ },
    ]);
    reveal_with_fuel(crate::snippets::tokens_of_lines, 2);
    assert(crate::snippets::tokens(h) =~= seq![
        TokenView::FullHeader { sig: n.signature@, path: n.path@ },
    ]);
}

/// What an answer prints behind the place of a node.
pub open spec fn printed_rest(
    n: Node,
    role: Seq<char>,
    score: Option<Seq<char>>,
    via_source: Option<Seq<char>>,
    source: Option<Seq<char>>,
    omit_via: bool,
) -> Seq<char> {
    crate::sections::package_mark(n.package@) + (if omit_via {
        Seq::empty()
    } else {
        crate::sections::badge(role, via_source, source)
    }) + crate::sections::score_mark(score)
}

proof fn lemma_bracketed(a: Seq<char>, b: Seq<char>)
    requires
        a.len() == 0 || (crate::text::starts_with(a, " ["@) && a.last() == ']'),
        b.len() == 0 || (crate::text::starts_with(b, " ["@) && b.last() == ']'),
    ensures
        (a + b).len() == 0 || (crate::text::starts_with(a + b, " ["@) && (a + b).last() == ']'),
{
    reveal_strlit(" [");
    if a.len() > 0 {
        assert((a + b).subrange(0, 2) =~= a.subrange(0, 2));
    } else {
        assert(a + b =~= b);
    }
}

proof fn lemma_mark(open: Seq<char>, inner: Seq<char>)
    requires
        crate::text::starts_with(open, " ["@),
    ensures
        crate::text::starts_with(open + inner + "]"@, " ["@),
        (open + inner + "]"@).last() == ']',
{
    reveal_strlit(" [");
    reveal_strlit("]");
    let s = open + inner + "]"@;
    assert(s.subrange(0, 2) =~= open.subrange(0, 2));
}

/// The line that an answer prints for a node, handed back as a request, denotes that node's
/// signature in that node's file, however the node was found and scored.
pub proof fn law_a_printed_line_reads_back(
    n: Node,
    role: Seq<char>,
    score: Option<Seq<char>>,
    via_source: Option<Seq<char>>,
    source: Option<Seq<char>>,
    omit_via: bool,
)
    requires
        is_readable(n, printed_rest(n, role, score, via_source, source, omit_via)),
    ensures
        crate::snippets::tokens(
            crate::sections::node_line(n, role, score, via_source, source, omit_via),
        ) == seq![TokenView::FullHeader { sig: n.signature@, path: n.path@ }],
{
    let rest = printed_rest(n, role, score, via_source, source, omit_via);
    let pkg = crate::sections::package_mark(n.package@);
    let via = if omit_via {
        Seq::empty()
    } else {
        crate::sections::badge(role, via_source, source)
    };
    let mark = crate::sections::score_mark(score);
    reveal_strlit(" [");
    reveal_strlit("]");
    reveal_strlit(" [package: ");
    reveal_strlit(" [via: ");
    reveal_strlit(" [score: ");
    assert(" [package: "@.subrange(0, 2) =~= " ["@);
    assert(" [via: "@.subrange(0, 2) =~= " ["@);
    assert(" [score: "@.subrange(0, 2) =~= " ["@);
    lemma_mark(" [package: "@, n.package@);
    if let Some(s) = score {
        lemma_mark(" [score: "@, s);
    }
    if let Some(x) = via_source {
        assert(" [via: "@ + role + " of "@ + x + "]"@ =~= " [via: "@ + (role + " of "@ + x) + "]"@);
        lemma_mark(" [via: "@, role + " of "@ + x);
    }
    if let Some(x) = source {
        assert(" [via: "@ + role + " \u{b7} "@ + x + "]"@ =~= " [via: "@ + (role + " \u{b7} "@ + x)
            + "]"@);
        lemma_mark(" [via: "@, role + " \u{b7} "@ + x);
    }
    lemma_mark(" [via: "@, role);
    lemma_bracketed(pkg, via);
    lemma_bracketed(pkg + via, mark);
    lemma_reads_back(n, rest);
    assert(crate::sections::node_line(n, role, score, via_source, source, omit_via)
        =~= n.signature@ + " ("@ + n.kind@ + "), "@ + printed_place(n) + rest);
}

/// A node whose snippet header can be read back: no part holds what separates the parts or the
/// requests.
pub open spec fn is_quotable(n: Node) -> bool {
    &&& n.signature@.len() > 0
    &&& crate::split::trim(n.signature@) == n.signature@
    &&& !crate::text::contains(n.signature@, " ("@)
    &&& n.path@.len() > 0
    &&& crate::split::trim(n.path@) == n.path@
    &&& !crate::text::contains(n.path@, " ["@)
    &&& crate::snippets::without_locator(n.path@) == n.path@
    &&& !crate::text::contains(n.signature@ + " ("@ + n.kind@ + ")"@, " \u{2014} "@)
    &&& !crate::snippets::snippet_header(crate::snippets::item(n)).contains(',')
    &&& !crate::snippets::snippet_header(crate::snippets::item(n)).contains('\n')
}

/// The first dash behind the kind.
proof fn lemma_find_dash(a: Seq<char>, b: Seq<char>)
    requires
        !crate::text::contains(a, " \u{2014} "@),
        a.len() > 0,
        a.last() == ')',
    ensures
        crate::text::find_from(a + " \u{2014} "@ + b, " \u{2014} "@, 0) == Some(a.len() as int),
{
    reveal_strlit(" \u{2014} ");
    let p = " \u{2014} "@;
    let s = a + p + b;
    let k = a.len() as int;
    crate::text::lemma_contains(a, p);
    crate::text::lemma_find_from(s, p, 0);
    assert(s.subrange(k, k + 3) =~= p);
    assert(crate::text::matches_at(s, p, k));
    assert forall|j: int| 0 <= j < k implies !crate::text::matches_at(s, p, j) by {
        if crate::text::matches_at(s, p, j) {
            if j + 3 <= k {
                assert(a.subrange(j, j + 3) =~= s.subrange(j, j + 3));
                assert(crate::text::matches_at(a, p, j));
            } else if j == k - 1 {
                assert(s.subrange(j, j + 3)[0] == s[j]);
            } else {
                assert(s.subrange(j, j + 3)[1] == s[j + 1]);
            }
        }
    }
}

/// The header above a snippet, handed back as a request, denotes the signature of its node in the
/// file of its node.
pub proof fn law_a_snippet_header_reads_back(n: Node)
    requires
        is_quotable(n),
    ensures
        crate::snippets::tokens(crate::snippets::snippet_header(crate::snippets::item(n))) == seq![
            TokenView::FullHeader { sig: n.signature@, path: n.path@ },
        ],
{
    let h = crate::snippets::snippet_header(crate::snippets::item(n));
    let a = first_half(n);
    let rest = " [package: "@ + n.package@ + "]"@;
    let b = n.path@ + rest;
    reveal_strlit(" (");
    reveal_strlit(")");
    reveal_strlit(") \u{2014} ");
    reveal_strlit(" \u{2014} ");
    reveal_strlit(" [package: ");
    reveal_strlit(" [");
    reveal_strlit("]");
    assert(h =~= a + " \u{2014} "@ + b);
    lemma_split_none(h, '\n');
    lemma_split_none(h, ',');
    reveal_with_fuel(crate::snippets::rejoined, 2);
    assert(seq![h].skip(1) =~= Seq::<Seq<char>>::empty());
    assert(crate::snippets::rejoined(seq![h]) =~= seq![h]);
    lemma_sig_half(n);
    lemma_find_dash(a, b);
    assert(h.take(a.len() as int) =~= a);
    assert(h.skip(a.len() as int + 3) =~= b);
    assert(rest.take(2) =~= " ["@);
    lemma_up_to_two(n.path@, " ["@, rest);
    assert(crate::snippets::header_token(h) == Some(
        TokenView::FullHeader { sig: n.signature@, path: n.path@ },
    ));
    assert(h[a.len() as int - 1] == a.last());
    lemma_no_id(h, a.len() as int - 1);
    lemma_trim_ends(n.signature@);
    assert(h[0] == n.signature@[0]);
    assert(h.last() == ']');
    lemma_trimmed(h);
    reveal_with_fuel(crate::snippets::line_tokens, 2);
    assert(seq![h].drop_last() =~= Seq::<Seq<char>>::empty());
    assert(crate::snippets::line_tokens(seq![h]) =~= seq![
        TokenView::FullHeader { sig: n.signature@, path: n.path@ },
    ]);
    reveal_with_fuel(crate::snippets::tokens_of_lines, 2);
    assert(crate::snippets::tokens(h) =~= seq![
        TokenView::FullHeader { sig: n.signature@, path: n.path@ },
    ]);
}

} // verus!
