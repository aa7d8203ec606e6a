//! What a caller may send in, and what may be sent back to it.
//!
//! Every answer that reaches a language model is cleaned first: control and bidirectional
//! override characters are dropped, angle brackets are written as entities, and the result is
//! bounded in bytes. No text that an index holds can then close the envelope around it.

use vstd::prelude::*;

use crate::text::{chars_of, contains, has_char, has_prefix, has_str, matches_at, starts_with};
use crate::width::{blen, byte_len, fit, fit_of, lemma_fit};

verus! {

/// Longest accepted argument, in bytes.
pub const MAX_ARG_BYTES: usize = 4096;

/// Longest accepted list argument, in bytes.
pub const MAX_LIST_BYTES: usize = 65536;

/// Longest scalar answer, in bytes, without its envelope.
pub const SCALAR_LIMIT: usize = 4096;

/// Why an argument was turned away.
#[derive(Debug, Clone, Copy, PartialEq, Eq, Structural)]
pub enum Rejection {
    Empty,
    TooLong,
    NulByte,
    AbsolutePath,
    ParentEscape,
    PercentEncoding,
}

/// The verdict on a plain argument: the first rule that it breaks.
pub open spec fn arg_verdict(arg: Seq<char>) -> Result<(), Rejection> {
    if arg.len() == 0 {
        Err(Rejection::Empty)
    } else if blen(arg) > MAX_ARG_BYTES {
        Err(Rejection::TooLong)
    } else if arg.contains('\0') {
        Err(Rejection::NulByte)
    } else if starts_with(arg, "/"@) {
        Err(Rejection::AbsolutePath)
    } else if contains(arg, "../"@) {
        Err(Rejection::ParentEscape)
    } else if arg.contains('%') {
        Err(Rejection::PercentEncoding)
    } else {
        Ok(())
    }
}

/// Checks an argument that names a file, a symbol or a repository.
pub fn validate_mcp_arg(arg: &str) -> (r: Result<(), Rejection>)
    ensures
        r == arg_verdict(arg@),
{
    if arg.is_empty() {
        Err(Rejection::Empty)
    } else if byte_len(arg) > MAX_ARG_BYTES {
        Err(Rejection::TooLong)
    } else if has_char(arg, '\0') {
        Err(Rejection::NulByte)
    } else if has_prefix(arg, "/") {
        Err(Rejection::AbsolutePath)
    } else if has_str(arg, "../") {
        Err(Rejection::ParentEscape)
    } else if has_char(arg, '%') {
        Err(Rejection::PercentEncoding)
    } else {
        Ok(())
    }
}

/// The argument keeps every rule.
pub open spec fn arg_ok(arg: Seq<char>) -> bool {
    arg_verdict(arg) is Ok
}

pub fn is_valid_arg(arg: &str) -> (r: bool)
    ensures
        r == arg_ok(arg@),
{
    validate_mcp_arg(arg).is_ok()
}

/// An absent argument keeps every rule.
pub open spec fn opt_arg_ok(arg: Option<&str>) -> bool {
    arg matches Some(a) ==> arg_ok(a@)
}

pub fn is_valid_opt_arg(arg: Option<&str>) -> (r: bool)
    ensures
        r == opt_arg_ok(arg),
{
    match arg {
        Some(a) => is_valid_arg(a),
        None => true,
    }
}

/// The verdict on a search pattern. A pattern is never resolved as a path, so the path rules do
/// not apply to it.
pub open spec fn pattern_verdict(pattern: Seq<char>) -> Result<(), Rejection> {
    if blen(pattern) > MAX_ARG_BYTES {
        Err(Rejection::TooLong)
    } else if pattern.contains('\0') {
        Err(Rejection::NulByte)
    } else {
        Ok(())
    }
}

/// Checks a search pattern.
pub fn validate_mcp_pattern_arg(pattern: &str) -> (r: Result<(), Rejection>)
    ensures
        r == pattern_verdict(pattern@),
{
    if byte_len(pattern) > MAX_ARG_BYTES {
        Err(Rejection::TooLong)
    } else if has_char(pattern, '\0') {
        Err(Rejection::NulByte)
    } else {
        Ok(())
    }
}

/// The verdict on a list of symbols.
pub open spec fn list_verdict(list: Seq<char>) -> Result<(), Rejection> {
    if blen(list) > MAX_LIST_BYTES {
        Err(Rejection::TooLong)
    } else if list.contains('\0') {
        Err(Rejection::NulByte)
    } else if contains(list, "../"@) {
        Err(Rejection::ParentEscape)
    } else {
        Ok(())
    }
}

/// Checks a list of symbols.
pub fn validate_mcp_list_arg(list: &str) -> (r: Result<(), Rejection>)
    ensures
        r == list_verdict(list@),
{
    if byte_len(list) > MAX_LIST_BYTES {
        Err(Rejection::TooLong)
    } else if has_char(list, '\0') {
        Err(Rejection::NulByte)
    } else if has_str(list, "../") {
        Err(Rejection::ParentEscape)
    } else {
        Ok(())
    }
}

/// The Unicode control characters (C0, delete, C1).
pub open spec fn is_control(c: char) -> bool {
    c <= '\u{1f}' || '\u{7f}' <= c <= '\u{9f}'
}

pub fn control(c: char) -> (r: bool)
    ensures
        r == is_control(c),
{
    c <= '\u{1f}' || ('\u{7f}' <= c && c <= '\u{9f}')
}

/// The characters that override or isolate the direction of text.
pub open spec fn is_bidi(c: char) -> bool {
    '\u{202a}' <= c <= '\u{202e}' || '\u{2066}' <= c <= '\u{2069}'
}

/// What one character becomes in an answer.
pub open spec fn clean_char(c: char) -> Seq<char> {
    if c == '<' {
        "&lt;"@
    } else if c == '>' {
        "&gt;"@
    } else if c == '\n' || c == '\t' {
        seq![c]
    } else if is_control(c) || is_bidi(c) {
        Seq::empty()
    } else {
        seq![c]
    }
}

/// What a text becomes in an answer, before the limit.
pub open spec fn clean(s: Seq<char>) -> Seq<char>
    decreases s.len(),
{
    if s.len() == 0 {
        Seq::empty()
    } else {
        clean(s.drop_last()) + clean_char(s.last())
    }
}

/// What a text becomes in an answer of at most `limit` bytes.
pub open spec fn body(s: Seq<char>, limit: nat) -> Seq<char> {
    fit(clean(s), limit)
}

/// The envelope around an answer.
pub open spec fn envelope(s: Seq<char>) -> Seq<char> {
    "<travsr-data>"@ + s + "</travsr-data>"@
}

/// A scalar answer: cleaned, bounded, in its envelope.
pub open spec fn scalar(s: Seq<char>) -> Seq<char> {
    envelope(body(s, SCALAR_LIMIT as nat))
}

/// Cleans `s`, without a limit.
pub(crate) fn clean_of(s: &str) -> (r: String)
    ensures
        r@ == clean(s@),
{
    let v = chars_of(s);
    let mut r = String::new();
    let mut i: usize = 0;
    assert(v@.take(0) =~= Seq::<char>::empty());
    while i < v.len()
        invariant
            i <= v@.len(),
            r@ == clean(v@.take(i as int)),
        decreases v@.len() - i,
    {
        let c: char = v[i];
        let ghost prev = r@;
        if c == '<' {
            r.append("&lt;");
        } else if c == '>' {
            r.append("&gt;");
        } else if c == '\n' || c == '\t' {
            r.push(c);
        } else if !(control(c) || ('\u{202a}' <= c && c <= '\u{202e}') || ('\u{2066}' <= c && c
            <= '\u{2069}')) {
            r.push(c);
        }
        assert(r@ =~= prev + clean_char(c));
        i += 1;
        assert(v@.take(i as int).drop_last() =~= v@.take(i - 1));
    }
    assert(v@.take(i as int) =~= v@);
    r
}

/// Cleans `s` and bounds it to `limit` bytes.
pub fn sanitize_mcp_body_with_limit(s: &str, limit: usize) -> (r: String)
    ensures
        r@ == body(s@, limit as nat),
{
    fit_of(clean_of(s).as_str(), limit)
}

/// Puts `s` in its envelope.
pub fn wrap_envelope(s: &str) -> (r: String)
    ensures
        r@ == envelope(s@),
{
    crate::text::cat3("<travsr-data>", s, "</travsr-data>")
}

/// Cleans `s`, bounds it, and puts it in its envelope.
pub fn sanitize_for_mcp(s: &str) -> (r: String)
    ensures
        r@ == scalar(s@),
{
    wrap_envelope(sanitize_mcp_body_with_limit(s, SCALAR_LIMIT).as_str())
}

/// No cleaned text holds an angle bracket.
pub proof fn law_clean_has_no_angle_bracket(s: Seq<char>)
    ensures
        !clean(s).contains('<'),
        !clean(s).contains('>'),
    decreases s.len(),
{
    if s.len() > 0 {
        law_clean_has_no_angle_bracket(s.drop_last());
        let a = clean(s.drop_last());
        let b = clean_char(s.last());
        reveal_strlit("&lt;");
        reveal_strlit("&gt;");
        assert forall|i: int| 0 <= i < (a + b).len() implies (a + b)[i] != '<' && (a + b)[i] != '>' by {
            if i < a.len() {
                assert((a + b)[i] == a[i]);
                assert(a.contains(a[i]));
            } else {
                assert((a + b)[i] == b[i - a.len()]);
            }
        }
    }
}

/// No answer body holds an angle bracket, whatever its limit: a closing tag inside an envelope
/// can only be the envelope's own.
pub proof fn law_body_cannot_close_the_envelope(s: Seq<char>, limit: nat)
    ensures
        !body(s, limit).contains('<'),
        !body(s, limit).contains('>'),
        !contains(body(s, limit), "</travsr-data>"@),
{
    let c = clean(s);
    law_clean_has_no_angle_bracket(s);
    lemma_fit(c, limit);
    let b = body(s, limit);
    assert forall|i: int| 0 <= i < b.len() implies b[i] != '<' && b[i] != '>' by {
        assert(b[i] == c[i]);
        assert(c.contains(c[i]));
    }
    crate::text::lemma_contains(b, "</travsr-data>"@);
    if contains(b, "</travsr-data>"@) {
        reveal_strlit("</travsr-data>");
        let j = choose|j: int| matches_at(b, "</travsr-data>"@, j);
        assert(b.subrange(j, j + "</travsr-data>"@.len())[0] == '<');
        assert(b[j] == '<');
    }
}

/// An answer body never exceeds its limit.
pub proof fn law_body_is_bounded(s: Seq<char>, limit: nat)
    ensures
        blen(body(s, limit)) <= limit,
{
    lemma_fit(clean(s), limit);
}

/// Cleaning makes a text without angle brackets no longer.
pub proof fn lemma_clean_shrinks(s: Seq<char>)
    requires
        !s.contains('<'),
        !s.contains('>'),
    ensures
        blen(clean(s)) <= blen(s),
    decreases s.len(),
{
    if s.len() > 0 {
        let p = s.drop_last();
        let c = s.last();
        assert(s.contains(s[s.len() - 1]));
        assert forall|i: int| 0 <= i < p.len() implies p[i] != '<' && p[i] != '>' by {
            assert(s.contains(s[i]));
        }
        lemma_clean_shrinks(p);
        crate::width::lemma_blen_push(p, c);
        assert(p.push(c) =~= s);
        crate::width::lemma_blen_one(c);
        crate::width::lemma_blen_concat(clean(p), clean_char(c));
        crate::width::lemma_blen_ascii(Seq::empty());
    } else {
        crate::width::lemma_blen_ascii(Seq::empty());
        assert(s =~= Seq::<char>::empty());
    }
}

/// Cleaning goes character by character.
pub proof fn law_clean_goes_piece_by_piece(a: Seq<char>, b: Seq<char>)
    ensures
        clean(a + b) == clean(a) + clean(b),
    decreases b.len(),
{
    if b.len() == 0 {
        assert(a + b =~= a);
        assert(clean(a) + clean(b) =~= clean(a));
    } else {
        assert((a + b).drop_last() =~= a + b.drop_last());
        law_clean_goes_piece_by_piece(a, b.drop_last());
        assert(clean(a + b) =~= clean(a) + clean(b));
    }
}

/// A text of printable characters, line feeds and tabs, without angle brackets: no C0 or C1 control
/// character, and none that overrides the direction of text.
pub open spec fn is_plain(s: Seq<char>) -> bool {
    forall|i: int|
        0 <= i < s.len() ==> {
            let c = #[trigger] s[i];
            &&& c != '<'
            &&& c != '>'
            &&& c == '\n' || c == '\t' || c >= ' '
            &&& !('\u{7f}' <= c <= '\u{9f}')
            &&& !('\u{202a}' <= c <= '\u{202e}')
            &&& !('\u{2066}' <= c <= '\u{2069}')
        }
}

/// A plain text is kept as it is.
pub proof fn law_plain_text_is_kept(s: Seq<char>)
    requires
        is_plain(s),
    ensures
        clean(s) == s,
    decreases s.len(),
{
    if s.len() > 0 {
        let p = s.drop_last();
        assert forall|i: int| 0 <= i < p.len() implies p[i] == s[i] by {}
        assert(is_plain(p)) by {
            assert forall|i: int| 0 <= i < p.len() implies {
                let c = #[trigger] p[i];
                &&& c != '<'
                &&& c != '>'
                &&& c == '\n' || c == '\t' || c >= ' '
                &&& !('\u{7f}' <= c <= '\u{9f}')
                &&& !('\u{202a}' <= c <= '\u{202e}')
                &&& !('\u{2066}' <= c <= '\u{2069}')
            } by {
                assert(p[i] == s[i]);
            }
        }
        law_plain_text_is_kept(p);
        assert(s[s.len() - 1] == s.last());
        assert(clean_char(s.last()) =~= seq![s.last()]);
        assert(clean(s) =~= s);
    } else {
        assert(clean(s) =~= s);
    }
}

/// What fits its limit is not cut.
pub proof fn law_short_answer_is_not_cut(s: Seq<char>, limit: nat)
    requires
        blen(clean(s)) <= limit,
    ensures
        body(s, limit) == clean(s),
{
}

/// A plain answer that fits stands in its envelope word for word.
pub proof fn law_plain_answer_is_whole(s: Seq<char>)
    requires
        is_plain(s),
        blen(s) <= 4096,
    ensures
        scalar(s) == "<travsr-data>"@ + s + "</travsr-data>"@,
        crate::lines::holds(scalar(s), s),
{
    law_plain_text_is_kept(s);
    crate::lines::lemma_holds_itself("<travsr-data>"@, s, "</travsr-data>"@);
}

/// The envelope adds its two tags and nothing else.
pub proof fn law_envelope_keeps_the_body(s: Seq<char>)
    ensures
        envelope(s).subrange("<travsr-data>"@.len() as int, "<travsr-data>"@.len() as int + s.len()) == s,
        "<travsr-data>"@.is_prefix_of(envelope(s)),
        envelope(s).len() == "<travsr-data>"@.len() + s.len() + "</travsr-data>"@.len(),
        envelope(s).skip("<travsr-data>"@.len() as int + s.len()) == "</travsr-data>"@,
{
    let e = envelope(s);
    let n = "<travsr-data>"@.len() as int;
    assert(e.subrange(n, n + s.len()) =~= s);
    assert(e.subrange(0, n) =~= "<travsr-data>"@);
    assert(e.skip(n + s.len()) =~= "</travsr-data>"@);
}

/// What is cut is cut only behind the limit: one character more would not fit.
pub proof fn law_cut_answer_is_as_long_as_fits(s: Seq<char>, limit: nat)
    ensures
        body(s, limit).is_prefix_of(clean(s)),
        body(s, limit).len() < clean(s).len() ==> blen(clean(s).take(body(s, limit).len() as int + 1)) > limit,
{
    lemma_fit(clean(s), limit);
    let c = clean(s);
    let b = body(s, limit);
    assert(c.subrange(0, b.len() as int) =~= c.take(b.len() as int));
}

} // verus!
