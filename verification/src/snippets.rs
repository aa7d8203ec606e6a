//! Source snippets of symbols.

use vstd::prelude::*;

use crate::global::{collect_global, Repo};
use crate::refs::resolve_symbol_nodes;
use crate::sanitize::{
    sanitize_for_mcp, sanitize_mcp_body_with_limit, validate_mcp_list_arg, wrap_envelope,
};
use crate::split::{split_on, trim_of};
use crate::store::{opt_view, Node, SourceText, Store};
use crate::text::{
    cat3, chars_of, dec_u32, dec_u64, dec_usize, find_str, first_char, has_char, has_str, join_strings,
    last_char, same, string_of, strip_prefix,
};
use crate::width::byte_len;

verus! {

/// The most snippets for one bare signature.
pub const MAX_SIGNATURE_MATCHES: usize = 3;

/// The bytes that count as one token.
pub const TOKEN_CHARS_PER_TOKEN: usize = 4;

/// The largest token budget.
pub const MAX_CONTEXT_BUDGET: usize = 32_000;

/// How a symbol is rendered.
#[derive(Debug, Clone, Copy, PartialEq, Eq, Structural)]
pub enum SnippetMode {
    /// The source where it fits the line cap of its kind, else the outline.
    Auto,
    /// The whole source.
    Full,
    /// The outline.
    Skeleton,
}

impl Default for SnippetMode {
    fn default() -> (r: Self)
        ensures
            r == SnippetMode::Auto,
    {
        SnippetMode::Auto
    }
}

impl SnippetMode {
    /// The mode that an argument names; any other argument means `Auto`.
    pub fn from_arg(s: &str) -> (r: Self)
        ensures
            r == (if s@ == "full"@ {
                SnippetMode::Full
            } else if s@ == "skeleton"@ {
                SnippetMode::Skeleton
            } else {
                SnippetMode::Auto
            }),
    {
        if same(s, "full") {
            SnippetMode::Full
        } else if same(s, "skeleton") {
            SnippetMode::Skeleton
        } else {
            SnippetMode::Auto
        }
    }
}

// ---------------------------------------------------------------- numbers

pub open spec fn is_digit(c: char) -> bool {
    '0' <= c && c <= '9'
}

/// Only decimal digits.
pub open spec fn all_digits(s: Seq<char>) -> bool {
    forall|i: int| 0 <= i < s.len() ==> is_digit(#[trigger] s[i])
}

/// The number that decimal digits denote.
pub open spec fn value(s: Seq<char>) -> nat
    decreases s.len(),
{
    if s.len() == 0 {
        0
    } else {
        (10 * value(s.drop_last()) + (s.last() as u32 - '0' as u32)) as nat
    }
}

/// The digits of a number: all of the text, or what follows a leading plus.
pub open spec fn number_digits(s: Seq<char>) -> Seq<char> {
    if s.len() > 0 && s[0] == '+' {
        s.drop_first()
    } else {
        s
    }
}

/// The number that a text denotes, if it is one and at most `max`.
pub open spec fn number(s: Seq<char>, max: nat) -> Option<nat> {
    let d = number_digits(s);
    if d.len() > 0 && all_digits(d) && value(d) <= max {
        Some(value(d))
    } else {
        None
    }
}

proof fn lemma_value_grows(s: Seq<char>, i: int)
    requires
        0 <= i <= s.len(),
        all_digits(s),
    ensures
        value(s.take(i)) <= value(s),
    decreases s.len() - i,
{
    if i < s.len() {
        lemma_value_grows(s, i + 1);
        assert(s.take(i + 1).drop_last() =~= s.take(i));
        assert(is_digit(s[i]));
    } else {
        assert(s.take(i) =~= s);
    }
}

pub(crate) fn number_of(s: &Vec<char>, from: usize, to: usize, max: u128) -> (r: Option<u128>)
    requires
        from <= to <= s@.len(),
    ensures
        r is Some == number(s@.subrange(from as int, to as int), max as nat) is Some,
        r matches Some(v) ==> v <= max && number(
            s@.subrange(from as int, to as int),
            max as nat,
        ) == Some(v as nat),
{
    let ghost text = s@.subrange(from as int, to as int);
    let mut start: usize = from;
    if from < to && s[from] == '+' {
        start = from + 1;
    }
    let ghost d = number_digits(text);
    assert(d =~= s@.subrange(start as int, to as int));
    if start == to {
        return None;
    }
    let mut acc: u128 = 0;
    let mut i: usize = start;
    assert(d.take(0) =~= Seq::<char>::empty());
    while i < to
        invariant
            start <= i <= to <= s@.len(),
            from <= to,
            text == s@.subrange(from as int, to as int),
            d == s@.subrange(start as int, to as int),
            d == number_digits(text),
            d.len() > 0,
            acc == value(d.take(i - start)),
            acc <= max,
            forall|j: int| 0 <= j < i - start ==> is_digit(#[trigger] d[j]),
        decreases to - i,
    {
        let c: char = s[i];
        assert(d[i - start] == c);
        if !('0' <= c && c <= '9') {
            assert(!is_digit(d[i - start]));
            return None;
        }
        let v: u128 = (c as u32 - '0' as u32) as u128;
        assert(d.take(i - start + 1).drop_last() =~= d.take(i - start));
        let next: Option<u128> = match acc.checked_mul(10) {
            Some(x) => x.checked_add(v),
            None => None,
        };
        proof {
            if all_digits(d) {
                lemma_value_grows(d, i - start + 1);
            }
        }
        match next {
            Some(x) => {
                if x > max {
                    return None;
                }
                acc = x;
            },
            None => return None,
        }
        i += 1;
    }
    assert(d.take(i - start) =~= d);
    Some(acc)
}

// ---------------------------------------------------------------- requests

/// A requested symbol.
pub enum TokenView {
    /// A node by its id.
    NodeId(nat),
    /// A signature in a file.
    FullHeader { sig: Seq<char>, path: Seq<char> },
    /// Lines of a file.
    PathLine { path: Seq<char>, start: nat, end: Option<nat> },
    /// A signature or name.
    BareSig(Seq<char>),
}

/// A requested symbol.
#[derive(Debug)]
pub enum SymbolToken {
    /// `nodeId:42`: a node by its id.
    NodeId(u64),
    /// The first line that other tools print for a symbol: a signature in a file.
    FullHeader { sig: String, path: String },
    /// `src/main.rs:42` or `src/main.rs:42-55`: lines of a file.
    PathLine { path: String, start: u32, end: Option<u32> },
    /// Anything else: a signature or name.
    BareSig(String),
}

impl View for SymbolToken {
    type V = TokenView;

    open spec fn view(&self) -> TokenView {
        match *self {
            SymbolToken::NodeId(id) => TokenView::NodeId(id as nat),
            SymbolToken::FullHeader { sig, path } => TokenView::FullHeader {
                sig: sig@,
                path: path@,
            },
            SymbolToken::PathLine { path, start, end } => TokenView::PathLine {
                path: path@,
                start: start as nat,
                end: match end {
                    Some(e) => Some(e as nat),
                    None => None,
                },
            },
            SymbolToken::BareSig(s) => TokenView::BareSig(s@),
        }
    }
}

pub open spec fn token_views(v: Seq<SymbolToken>) -> Seq<TokenView> {
    Seq::new(v.len(), |i: int| v[i]@)
}

/// A locator behind a path: `line` or `start-end`.
pub open spec fn is_locator(s: Seq<char>) -> bool {
    match crate::text::first_of(s, '-') {
        Some(i) => 0 < i < s.len() - 1 && all_digits(s.take(i)) && all_digits(s.skip(i + 1)),
        None => s.len() > 0 && all_digits(s),
    }
}

/// A path without the locator behind it.
pub open spec fn without_locator(path: Seq<char>) -> Seq<char> {
    match crate::text::last_of(path, ':', ':') {
        Some(i) => if is_locator(path.skip(i + 1)) {
            path.take(i)
        } else {
            path
        },
        None => path,
    }
}

fn are_digits(s: &Vec<char>, from: usize, to: usize) -> (r: bool)
    requires
        from <= to <= s@.len(),
    ensures
        r == all_digits(s@.subrange(from as int, to as int)),
{
    let ghost d = s@.subrange(from as int, to as int);
    let mut i: usize = from;
    while i < to
        invariant
            from <= i <= to <= s@.len(),
            d == s@.subrange(from as int, to as int),
            forall|j: int| 0 <= j < i - from ==> is_digit(#[trigger] d[j]),
        decreases to - i,
    {
        let c: char = s[i];
        assert(d[i - from] == c);
        if !('0' <= c && c <= '9') {
            assert(!is_digit(d[i - from]));
            return false;
        }
        i += 1;
    }
    true
}

fn locator(s: &str) -> (r: bool)
    ensures
        r == is_locator(s@),
{
    let cs = chars_of(s);
    let n: usize = cs.len();
    match first_char(&cs, '-') {
        Some(i) => {
            assert(cs@.subrange(0, i as int) =~= s@.take(i as int));
            assert(cs@.subrange(i + 1, n as int) =~= s@.skip(i + 1));
            i > 0 && i < n - 1 && are_digits(&cs, 0, i) && are_digits(&cs, i + 1, n)
        },
        None => {
            assert(cs@.subrange(0, n as int) =~= s@);
            n > 0 && are_digits(&cs, 0, n)
        },
    }
}

/// A path without the `:line` or `:start-end` behind it.
pub fn strip_line_suffix(path: &str) -> (r: String)
    ensures
        r@ == without_locator(path@),
{
    let cs = chars_of(path);
    let n: usize = cs.len();
    match last_char(&cs, ':', ':') {
        Some(i) => {
            let tail = string_of(&cs, i + 1, n);
            assert(cs@.subrange(i + 1, n as int) =~= path@.skip(i + 1));
            if locator(tail.as_str()) {
                let s = string_of(&cs, 0, i);
                assert(cs@.subrange(0, i as int) =~= path@.take(i as int));
                s
            } else {
                path.to_owned()
            }
        },
        None => path.to_owned(),
    }
}

/// What stands before the first occurrence of `p`; all of `s` where there is none.
pub open spec fn up_to(s: Seq<char>, p: Seq<char>) -> Seq<char> {
    match crate::text::find_from(s, p, 0) {
        Some(i) => s.take(i),
        None => s,
    }
}

fn cut_at(s: &str, p: &str) -> (r: String)
    ensures
        r@ == up_to(s@, p@),
{
    match find_str(s, p) {
        Some(i) => {
            let cs = chars_of(s);
            proof {
                crate::text::lemma_find_from(s@, p@, 0);
            }
            let r = string_of(&cs, 0, i);
            assert(cs@.subrange(0, i as int) =~= s@.take(i as int));
            r
        },
        None => s.to_owned(),
    }
}

/// A printed header in two: the signature with its kind, and the path with what follows. The two are
/// joined by a dash, or by a comma behind the kind.
pub open spec fn header_halves(token: Seq<char>) -> Option<(Seq<char>, Seq<char>)> {
    match crate::text::find_from(token, " \u{2014} "@, 0) {
        Some(i) => Some((token.take(i), token.skip(i + 3))),
        None => match crate::text::find_from(token, "), "@, 0) {
            Some(i) => Some((token.take(i + 1), token.skip(i + 3))),
            None => None,
        },
    }
}

/// The signature of a header: what stands before its kind.
pub open spec fn header_sig(half: Seq<char>) -> Seq<char> {
    crate::split::trim(up_to(half, " ("@))
}

/// The path of a header: what stands before its first bracket, without the locator.
pub open spec fn header_path(half: Seq<char>) -> Seq<char> {
    without_locator(crate::split::trim(up_to(half, " ["@)))
}

/// What a header denotes.
pub open spec fn header_token(token: Seq<char>) -> Option<TokenView> {
    match header_halves(token) {
        Some((a, b)) => if header_sig(a).len() == 0 {
            None
        } else if header_path(b).len() == 0 {
            Some(TokenView::BareSig(header_sig(a)))
        } else {
            Some(TokenView::FullHeader { sig: header_sig(a), path: header_path(b) })
        },
        None => None,
    }
}

/// The line that decimal digits denote; a sign is no digit.
pub open spec fn line_number(s: Seq<char>) -> Option<nat> {
    if all_digits(s) {
        number(s, u32::MAX as nat)
    } else {
        None
    }
}

/// What a place in a file denotes. The path must hold a slash, which tells it from a signature.
pub open spec fn line_token(token: Seq<char>) -> Option<TokenView> {
    match crate::text::last_of(token, ':', ':') {
        Some(i) => {
            let (path, line) = (token.take(i), token.skip(i + 1));
            if !path.contains('/') {
                None
            } else {
                match crate::text::first_of(line, '-') {
                    Some(d) => match (line_number(line.take(d)), line_number(line.skip(d + 1))) {
                        (Some(s), Some(e)) => Some(
                            TokenView::PathLine { path, start: s, end: Some(e) },
                        ),
                        _ => None,
                    },
                    None => match line_number(line) {
                        Some(s) => Some(TokenView::PathLine { path, start: s, end: None }),
                        None => None,
                    },
                }
            }
        },
        None => None,
    }
}

/// The id of an explicit node.
pub open spec fn id_token(token: Seq<char>) -> Option<nat> {
    match crate::text::after_prefix(token, "nodeId:"@) {
        Some(rest) => number(crate::split::trim(rest), u64::MAX as nat),
        None => None,
    }
}

/// What a token denotes: a node id, else a header, else a place in a file, else a signature.
pub open spec fn classified(token: Seq<char>) -> TokenView {
    if id_token(token) is Some {
        TokenView::NodeId(id_token(token)->0)
    } else if header_token(token) is Some {
        header_token(token)->0
    } else if line_token(token) is Some {
        line_token(token)->0
    } else {
        TokenView::BareSig(token)
    }
}

fn header_token_of(token: &str) -> (r: Option<SymbolToken>)
    ensures
        r is Some == header_token(token@) is Some,
        r matches Some(t) ==> header_token(token@) == Some(t@),
{
    let cs = chars_of(token);
    let n: usize = cs.len();
    proof {
        reveal_strlit(" \u{2014} ");
        reveal_strlit("), ");
    }
    let (a, b) = match find_str(token, " \u{2014} ") {
        Some(i) => {
            let x = string_of(&cs, 0, i);
            let y = string_of(&cs, i + 3, n);
            assert(cs@.subrange(0, i as int) =~= token@.take(i as int));
            assert(cs@.subrange(i + 3, n as int) =~= token@.skip(i + 3));
            (x, y)
        },
        None => match find_str(token, "), ") {
            Some(i) => {
                let x = string_of(&cs, 0, i + 1);
                let y = string_of(&cs, i + 3, n);
                assert(cs@.subrange(0, i + 1) =~= token@.take(i + 1));
                assert(cs@.subrange(i + 3, n as int) =~= token@.skip(i + 3));
                (x, y)
            },
            None => return None,
        },
    };
    let sig_half = cut_at(a.as_str(), " (");
    let sig = trim_of(sig_half.as_str());
    let path_half = cut_at(b.as_str(), " [");
    let placed = trim_of(path_half.as_str());
    let path = strip_line_suffix(placed.as_str());
    if sig.as_str().is_empty() {
        None
    } else if path.as_str().is_empty() {
        Some(SymbolToken::BareSig(sig))
    } else {
        Some(SymbolToken::FullHeader { sig, path })
    }
}

fn line_number_of(s: &Vec<char>, from: usize, to: usize) -> (r: Option<u32>)
    requires
        from <= to <= s@.len(),
    ensures
        r is Some == line_number(s@.subrange(from as int, to as int)) is Some,
        r matches Some(v) ==> line_number(s@.subrange(from as int, to as int)) == Some(v as nat),
{
    if !are_digits(s, from, to) {
        return None;
    }
    match number_of(s, from, to, u32::MAX as u128) {
        Some(v) => Some(v as u32),
        None => None,
    }
}

fn line_token_of(token: &str) -> (r: Option<SymbolToken>)
    ensures
        r is Some == line_token(token@) is Some,
        r matches Some(t) ==> line_token(token@) == Some(t@),
{
    let cs = chars_of(token);
    let n: usize = cs.len();
    let at: usize = match last_char(&cs, ':', ':') {
        Some(i) => i,
        None => return None,
    };
    let path = string_of(&cs, 0, at);
    assert(cs@.subrange(0, at as int) =~= token@.take(at as int));
    if !has_char(path.as_str(), '/') {
        return None;
    }
    let line = string_of(&cs, at + 1, n);
    assert(cs@.subrange(at + 1, n as int) =~= token@.skip(at + 1));
    let ls = chars_of(line.as_str());
    let m: usize = ls.len();
    match first_char(&ls, '-') {
        Some(d) => {
            assert(ls@.subrange(0, d as int) =~= line@.take(d as int));
            assert(ls@.subrange(d + 1, m as int) =~= line@.skip(d + 1));
            match (line_number_of(&ls, 0, d), line_number_of(&ls, d + 1, m)) {
                (Some(s), Some(e)) => Some(SymbolToken::PathLine { path, start: s, end: Some(e) }),
                _ => None,
            }
        },
        None => {
            assert(ls@.subrange(0, m as int) =~= line@);
            match line_number_of(&ls, 0, m) {
                Some(s) => Some(SymbolToken::PathLine { path, start: s, end: None }),
                None => None,
            }
        },
    }
}

fn id_token_of(token: &str) -> (r: Option<u64>)
    ensures
        r is Some == id_token(token@) is Some,
        r matches Some(v) ==> id_token(token@) == Some(v as nat),
{
    match strip_prefix(token, "nodeId:") {
        Some(rest) => {
            let t = trim_of(rest);
            let cs = chars_of(t.as_str());
            let n: usize = cs.len();
            assert(cs@.subrange(0, n as int) =~= t@);
            match number_of(&cs, 0, n, u64::MAX as u128) {
                Some(v) => Some(v as u64),
                None => None,
            }
        },
        None => None,
    }
}

/// What one token denotes.
pub fn classify(token: &str) -> (r: SymbolToken)
    ensures
        r@ == classified(token@),
{
    if let Some(id) = id_token_of(token) {
        return SymbolToken::NodeId(id);
    }
    if let Some(t) = header_token_of(token) {
        return t;
    }
    if let Some(t) = line_token_of(token) {
        return t;
    }
    SymbolToken::BareSig(token.to_owned())
}

/// A piece that ends in a kind, and so may be the first half of a header.
pub open spec fn is_head(piece: Seq<char>) -> bool {
    piece.len() > 0 && piece.last() == ')' && crate::text::contains(piece, " ("@)
}

/// A piece that may be the second half of a header: a space, then what reads as a path, or anything
/// with a bracket behind it.
pub open spec fn is_tail(piece: Seq<char>) -> bool {
    piece.len() > 0 && piece[0] == ' ' && (piece.contains('/') || piece.contains('.')
        || crate::text::contains(piece, " ["@))
}

/// The pieces between commas, the halves of a header put together again.
pub open spec fn rejoined(pieces: Seq<Seq<char>>) -> Seq<Seq<char>>
    decreases pieces.len(),
{
    if pieces.len() == 0 {
        Seq::empty()
    } else if pieces.len() >= 2 && is_head(pieces[0]) && is_tail(pieces[1]) {
        seq![pieces[0] + ","@ + pieces[1]] + rejoined(pieces.skip(2))
    } else {
        seq![pieces[0]] + rejoined(pieces.skip(1))
    }
}

/// What the pieces of one line denote; blank ones denote nothing.
pub open spec fn line_tokens(pieces: Seq<Seq<char>>) -> Seq<TokenView>
    decreases pieces.len(),
{
    if pieces.len() == 0 {
        Seq::empty()
    } else {
        let t = crate::split::trim(pieces.last());
        if t.len() == 0 {
            line_tokens(pieces.drop_last())
        } else {
            line_tokens(pieces.drop_last()).push(classified(t))
        }
    }
}

/// What the lines of a request denote.
pub open spec fn tokens_of_lines(lines: Seq<Seq<char>>) -> Seq<TokenView>
    decreases lines.len(),
{
    if lines.len() == 0 {
        Seq::empty()
    } else {
        tokens_of_lines(lines.drop_last()) + line_tokens(
            rejoined(crate::split::split(lines.last(), ',', ',')),
        )
    }
}

/// What a request denotes: one token per line or comma-separated piece.
pub open spec fn tokens(symbols: Seq<char>) -> Seq<TokenView> {
    tokens_of_lines(crate::split::split(symbols, '\n', '\n'))
}

fn is_head_piece(piece: &str) -> (r: bool)
    ensures
        r == is_head(piece@),
{
    let cs = chars_of(piece);
    let n: usize = cs.len();
    n > 0 && cs[n - 1] == ')' && has_str(piece, " (")
}

fn is_tail_piece(piece: &str) -> (r: bool)
    ensures
        r == is_tail(piece@),
{
    let cs = chars_of(piece);
    if cs.len() == 0 || cs[0] != ' ' {
        return false;
    }
    has_char(piece, '/') || has_char(piece, '.') || has_str(piece, " [")
}

fn rejoin(pieces: &Vec<String>) -> (r: Vec<String>)
    ensures
        crate::text::views(r@) == rejoined(crate::text::views(pieces@)),
{
    let ghost all = crate::text::views(pieces@);
    let mut r: Vec<String> = Vec::new();
    let n: usize = pieces.len();
    let mut i: usize = 0;
    assert(all.skip(0) =~= all);
    assert(crate::text::views(r@) =~= Seq::<Seq<char>>::empty());
    assert(crate::text::views(r@) + rejoined(all) =~= rejoined(all));
    while i < n
        invariant
            all == crate::text::views(pieces@),
            n == pieces@.len(),
            i <= n,
            rejoined(all) == crate::text::views(r@) + rejoined(all.skip(i as int)),
        decreases n - i,
    {
        let ghost rest = all.skip(i as int);
        let ghost before = crate::text::views(r@);
        assert(rest[0] == pieces@[i as int]@);
        if n - i >= 2 && is_head_piece(pieces[i].as_str()) && is_tail_piece(pieces[i + 1].as_str()) {
            assert(rest[1] == pieces@[i + 1]@);
            let s = cat3(pieces[i].as_str(), ",", pieces[i + 1].as_str());
            proof {
                crate::text::lemma_views_push(r@, s);
                assert(rest.skip(2) =~= all.skip(i + 2));
                assert(before + (seq![s@] + rejoined(all.skip(i + 2))) =~= before.push(s@)
                    + rejoined(all.skip(i + 2)));
            }
            r.push(s);
            i += 2;
        } else {
            proof {
                if n - i >= 2 {
                    assert(rest[1] == pieces@[i + 1]@);
                }
                crate::text::lemma_views_push(r@, pieces@[i as int]);
                assert(rest.skip(1) =~= all.skip(i + 1));
                assert(before + (seq![rest[0]] + rejoined(all.skip(i + 1))) =~= before.push(
                    rest[0],
                ) + rejoined(all.skip(i + 1)));
            }
            r.push(pieces[i].clone());
            i += 1;
        }
    }
    assert(all.skip(i as int) =~= Seq::<Seq<char>>::empty());
    assert(crate::text::views(r@) + rejoined(all.skip(i as int)) =~= crate::text::views(r@));
    r
}

fn push_line_tokens(out: &mut Vec<SymbolToken>, pieces: &Vec<String>)
    ensures
        token_views(final(out)@) == token_views(old(out)@) + line_tokens(
            crate::text::views(pieces@),
        ),
{
    let ghost start = token_views(out@);
    let ghost all = crate::text::views(pieces@);
    let mut i: usize = 0;
    assert(start + line_tokens(all.take(0)) =~= start);
    while i < pieces.len()
        invariant
            all == crate::text::views(pieces@),
            i <= pieces@.len(),
            token_views(out@) == start + line_tokens(all.take(i as int)),
        decreases pieces@.len() - i,
    {
        assert(all.take(i + 1).drop_last() =~= all.take(i as int));
        assert(all.take(i + 1).last() == pieces@[i as int]@);
        let t = trim_of(pieces[i].as_str());
        if !t.as_str().is_empty() {
            let token = classify(t.as_str());
            let ghost was = out@;
            let ghost tv = token@;
            out.push(token);
            assert(token_views(out@) =~= token_views(was).push(tv));
            assert(token_views(was).push(tv) =~= start + line_tokens(all.take(i as int)).push(tv));
        }
        i += 1;
    }
    assert(all.take(i as int) =~= all);
}

/// Reads a list of symbols, one per line or separated by commas.
pub fn parse_symbol_tokens(symbols_arg: &str) -> (r: Vec<SymbolToken>)
    ensures
        token_views(r@) == tokens(symbols_arg@),
{
    let lines = split_on(symbols_arg, '\n', '\n');
    let ghost all = crate::text::views(lines@);
    let mut r: Vec<SymbolToken> = Vec::new();
    let mut i: usize = 0;
    assert(token_views(r@) =~= tokens_of_lines(all.take(0)));
    while i < lines.len()
        invariant
            all == crate::text::views(lines@),
            i <= lines@.len(),
            token_views(r@) == tokens_of_lines(all.take(i as int)),
        decreases lines@.len() - i,
    {
        assert(all.take(i + 1).drop_last() =~= all.take(i as int));
        assert(all.take(i + 1).last() == lines@[i as int]@);
        let raw = split_on(lines[i].as_str(), ',', ',');
        let pieces = rejoin(&raw);
        push_line_tokens(&mut r, &pieces);
        i += 1;
    }
    assert(all.take(i as int) =~= all);
    r
}

// ---------------------------------------------------------------- resolution

/// What is printed of a node: its name, kind, place and extent. Nothing else of it shows in a snippet.
pub struct Item {
    pub sig: Seq<char>,
    pub kind: Seq<char>,
    pub path: Seq<char>,
    pub package: Seq<char>,
    pub line: Option<u32>,
    pub end_line: Option<u32>,
}

pub open spec fn item(n: Node) -> Item {
    Item {
        sig: n.signature@,
        kind: n.kind@,
        path: n.path@,
        package: n.package@,
        line: n.line,
        end_line: n.end_line,
    }
}

pub open spec fn items(v: Seq<Node>) -> Seq<Item> {
    Seq::new(v.len(), |i: int| item(v[i]))
}

/// The last line of a range; one without an end holds forty lines.
pub open spec fn range_end(start: nat, end: Option<nat>) -> nat {
    match end {
        Some(e) => e,
        None => if start + 39 > u32::MAX {
            u32::MAX as nat
        } else {
            start + 39
        },
    }
}

/// A range of lines.
pub open spec fn range_item(path: Seq<char>, start: nat, end: Option<nat>) -> Item {
    Item {
        sig: path + ":"@ + crate::text::dec(start),
        kind: "source-range"@,
        path,
        package: Seq::empty(),
        line: Some(start as u32),
        end_line: Some(range_end(start, end) as u32),
    }
}

/// What a token denotes: a node by id, unless it is a file; the best node with the signature; a
/// range of lines; or the first few definitions of a name.
pub open spec fn denoted(store: Store, t: TokenView) -> Seq<Item> {
    match t {
        TokenView::NodeId(id) => match store.node(id as u64) {
            Some(n) => if n.kind@ == "file"@ {
                Seq::empty()
            } else {
                seq![item(n)]
            },
            None => Seq::empty(),
        },
        TokenView::FullHeader { sig, path } => {
            let hits = store.exact_hits(sig, Some(path));
            if hits.len() > 0 {
                seq![item(hits[0])]
            } else {
                Seq::empty()
            }
        },
        TokenView::PathLine { path, start, end } => seq![range_item(path, start, end)],
        TokenView::BareSig(sig) => {
            let all = items(crate::refs::resolved(store, sig, None));
            if all.len() > MAX_SIGNATURE_MATCHES {
                all.take(MAX_SIGNATURE_MATCHES as int)
            } else {
                all
            }
        },
    }
}

fn range_node(path: &str, start: u32, end: Option<u32>) -> (n: Node)
    ensures
        item(n) == range_item(
            path@,
            start as nat,
            match end {
                Some(e) => Some(e as nat),
                None => None,
            },
        ),
{
    let d = dec_u32(start);
    let last: u32 = match end {
        Some(e) => e,
        None => if start > u32::MAX - 39 {
            u32::MAX
        } else {
            start + 39
        },
    };
    let corpus = String::new();
    let language = String::new();
    let package = String::new();
    assert(corpus@ =~= Seq::<char>::empty());
    assert(language@ =~= Seq::<char>::empty());
    assert(package@ =~= Seq::<char>::empty());
    Node {
        id: 0,
        kind: "source-range".to_owned(),
        signature: cat3(path, ":", d.as_str()),
        path: path.to_owned(),
        corpus,
        language,
        package,
        line: Some(start),
        end_line: Some(last),
        is_test: false,
        is_noise: false,
        token_cost: 0,
    }
}

fn resolve_token(store: &Store, t: &SymbolToken) -> (r: Vec<Node>)
    ensures
        items(r@) == denoted(*store, t@),
{
    let mut r: Vec<Node> = Vec::new();
    assert(items(r@) =~= Seq::<Item>::empty());
    match t {
        SymbolToken::NodeId(id) => {
            if let Some(n) = store.get_node(*id) {
                if !same(n.kind.as_str(), "file") {
                    r.push(n.clone());
                    assert(items(r@) =~= seq![item(*n)]);
                }
            }
        },
        SymbolToken::FullHeader { sig, path } => {
            let hits = store.lookup_nodes_exact(sig.as_str(), Some(path.as_str()));
            if hits.len() > 0 {
                r.push(hits[0].clone());
                assert(items(r@) =~= seq![item(hits@[0])]);
            }
        },
        SymbolToken::PathLine { path, start, end } => {
            let n = range_node(path.as_str(), *start, *end);
            let ghost i = item(n);
            r.push(n);
            assert(items(r@) =~= seq![i]);
        },
        SymbolToken::BareSig(sig) => {
            r = resolve_symbol_nodes(store, sig.as_str(), None);
            if r.len() > MAX_SIGNATURE_MATCHES {
                let ghost all = r@;
                r.truncate(MAX_SIGNATURE_MATCHES);
                assert(items(r@) =~= items(all).take(MAX_SIGNATURE_MATCHES as int));
            }
        },
    }
    r
}

/// What the tokens denote, one after another.
pub open spec fn all_denoted(store: Store, ts: Seq<TokenView>) -> Seq<Item>
    decreases ts.len(),
{
    if ts.len() == 0 {
        Seq::empty()
    } else {
        all_denoted(store, ts.drop_last()) + denoted(store, ts.last())
    }
}

/// The nodes that the tokens denote, in order.
pub fn resolve_all(store: &Store, ts: &Vec<SymbolToken>) -> (r: Vec<Node>)
    ensures
        items(r@) == all_denoted(*store, token_views(ts@)),
{
    let ghost all = token_views(ts@);
    let mut r: Vec<Node> = Vec::new();
    let mut i: usize = 0;
    assert(items(r@) =~= all_denoted(*store, all.take(0)));
    while i < ts.len()
        invariant
            all == token_views(ts@),
            i <= ts@.len(),
            items(r@) == all_denoted(*store, all.take(i as int)),
        decreases ts@.len() - i,
    {
        assert(all.take(i + 1).drop_last() =~= all.take(i as int));
        assert(all.take(i + 1).last() == ts@[i as int]@);
        let ghost was = r@;
        let mut more = resolve_token(store, &ts[i]);
        let ghost added = more@;
        r.append(&mut more);
        assert(items(was + added) =~= items(was) + items(added));
        i += 1;
    }
    assert(all.take(i as int) =~= all);
    r
}

// ---------------------------------------------------------------- rendering

/// The source that is recorded for a node.
pub open spec fn source_of(sources: Seq<SourceText>, n: Item) -> Option<SourceText>
    decreases sources.len(),
{
    if sources.len() == 0 {
        None
    } else if sources.last().path@ == n.path && sources.last().kind@ == n.kind
        && sources.last().line == n.line && sources.last().end_line == n.end_line {
        Some(sources.last())
    } else {
        source_of(sources.drop_last(), n)
    }
}

fn find_source<'a>(store: &'a Store, n: &Node) -> (r: Option<&'a SourceText>)
    ensures
        r is Some == source_of(store.sources@, item(*n)) is Some,
        r matches Some(s) ==> source_of(store.sources@, item(*n)) == Some(*s),
{
    let mut i: usize = store.sources.len();
    assert(store.sources@.take(i as int) =~= store.sources@);
    while i > 0
        invariant
            i <= store.sources@.len(),
            source_of(store.sources@, item(*n)) == source_of(
                store.sources@.take(i as int),
                item(*n),
            ),
        decreases i,
    {
        let s = &store.sources[i - 1];
        if same(s.path.as_str(), n.path.as_str()) && same(s.kind.as_str(), n.kind.as_str())
            && s.line == n.line && s.end_line == n.end_line {
            return Some(s);
        }
        i -= 1;
        assert(store.sources@.take(i + 1).drop_last() =~= store.sources@.take(i as int));
    }
    None
}

pub open spec fn text_of(s: Option<String>) -> Option<Seq<char>> {
    match s {
        Some(t) => Some(t@),
        None => None,
    }
}

/// The first text that is there.
pub open spec fn either(a: Option<Seq<char>>, b: Option<Seq<char>>) -> Option<Seq<char>> {
    if a is Some {
        a
    } else {
        b
    }
}

/// How many lines a node spans beyond its first.
pub open spec fn height(n: Item) -> nat {
    let first = match n.line {
        Some(l) => l as nat,
        None => 0,
    };
    let last = match n.end_line {
        Some(l) => l as nat,
        None => first,
    };
    if last > first {
        (last - first) as nat
    } else {
        0
    }
}

/// What is shown of a node: a range of lines as it is; else by mode, with the other form where the
/// wanted one is not to be had.
pub open spec fn shown(store: Store, n: Item, mode: SnippetMode) -> Option<Seq<char>> {
    match source_of(store.sources@, n) {
        Some(s) => {
            let full = text_of(s.full);
            let capped = text_of(s.capped);
            let skeleton = text_of(s.skeleton);
            if n.kind == "source-range"@ {
                full
            } else {
                match mode {
                    SnippetMode::Full => either(full, skeleton),
                    SnippetMode::Skeleton => either(skeleton, capped),
                    SnippetMode::Auto => if height(n) > s.line_cap {
                        either(skeleton, capped)
                    } else {
                        either(capped, skeleton)
                    },
                }
            }
        },
        None => None,
    }
}

fn first_of_two<'a>(a: &'a Option<String>, b: &'a Option<String>) -> (r: Option<&'a String>)
    ensures
        r is Some == either(text_of(*a), text_of(*b)) is Some,
        r matches Some(s) ==> either(text_of(*a), text_of(*b)) == Some(s@),
{
    match a {
        Some(s) => Some(s),
        None => match b {
            Some(s) => Some(s),
            None => None,
        },
    }
}

fn height_of(n: &Node) -> (r: u32)
    ensures
        r == height(item(*n)),
{
    let first: u32 = match n.line {
        Some(l) => l,
        None => 0,
    };
    let last: u32 = match n.end_line {
        Some(l) => l,
        None => first,
    };
    if last > first {
        last - first
    } else {
        0
    }
}

pub(crate) fn shown_of<'a>(store: &'a Store, n: &Node, mode: SnippetMode) -> (r: Option<&'a String>)
    ensures
        r is Some == shown(*store, item(*n), mode) is Some,
        r matches Some(s) ==> shown(*store, item(*n), mode) == Some(s@),
{
    let s = match find_source(store, n) {
        Some(s) => s,
        None => return None,
    };
    if same(n.kind.as_str(), "source-range") {
        return match &s.full {
            Some(t) => Some(t),
            None => None,
        };
    }
    match mode {
        SnippetMode::Full => first_of_two(&s.full, &s.skeleton),
        SnippetMode::Skeleton => first_of_two(&s.skeleton, &s.capped),
        SnippetMode::Auto => if height_of(n) as u128 > s.line_cap as u128 {
            first_of_two(&s.skeleton, &s.capped)
        } else {
            first_of_two(&s.capped, &s.skeleton)
        },
    }
}

/// The line above a snippet.
pub open spec fn snippet_header(n: Item) -> Seq<char> {
    n.sig + " ("@ + n.kind + ") \u{2014} "@ + n.path + " [package: "@ + n.package + "]"@
}

/// A symbol as it is printed.
pub open spec fn block(n: Item, code: Option<Seq<char>>) -> Seq<char> {
    match code {
        Some(c) => snippet_header(n) + "\n---\n"@ + c,
        None => snippet_header(n),
    }
}

/// What a symbol costs, in tokens.
pub open spec fn block_cost(n: Item, code: Option<Seq<char>>) -> nat {
    let size = match code {
        Some(c) => crate::width::blen(c),
        None => 0,
    };
    (crate::width::blen(snippet_header(n)) + size) / 4 + 1
}

/// Symbols as far as the budget goes.
pub struct Pack {
    pub parts: Seq<Seq<char>>,
    pub used: nat,
    /// How many show any source.
    pub with_source: nat,
}

/// The pack with the nodes added, up to the first that exceeds the budget; the first of all is
/// always taken.
pub open spec fn packed(
    store: Store,
    mode: SnippetMode,
    budget: nat,
    p: Pack,
    nodes: Seq<Item>,
) -> Pack
    decreases nodes.len(),
{
    if nodes.len() == 0 {
        p
    } else {
        let code = shown(store, nodes[0], mode);
        let cost = block_cost(nodes[0], code);
        if p.parts.len() > 0 && p.used + cost > budget {
            p
        } else {
            packed(
                store,
                mode,
                budget,
                Pack {
                    parts: p.parts.push(block(nodes[0], code)),
                    used: p.used + cost,
                    with_source: p.with_source + if code is Some {
                        1nat
                    } else {
                        0
                    },
                },
                nodes.drop_first(),
            )
        }
    }
}

pub open spec fn empty_pack() -> Pack {
    Pack { parts: Seq::empty(), used: 0, with_source: 0 }
}

/// The most bytes of an answer under a budget.
pub open spec fn char_cap(budget: nat) -> nat {
    if budget * 8 > 1_024_000 {
        1_024_000
    } else {
        budget * 8
    }
}

/// The most bytes of an answer under a budget.
pub fn char_cap_of(budget: usize) -> (r: usize)
    ensures
        r == char_cap(budget as nat),
{
    if budget > 128_000 {
        1_024_000
    } else {
        budget * 8
    }
}

/// The answer that a pack makes.
pub open spec fn pack_text(p: Pack, budget: nat) -> Seq<char> {
    crate::sanitize::body(crate::text::join(p.parts, "\n\n"@), char_cap(budget)) + "\n\n["@
        + crate::text::dec(p.parts.len()) + " symbols, "@ + crate::text::dec(p.with_source)
        + " with snippets, ~"@ + crate::text::dec(p.used) + " tokens]"@
}

/// The answer for the nodes that a request denotes.
pub open spec fn items_text(store: Store, nodes: Seq<Item>, mode: SnippetMode, budget: nat) -> Seq<
    char,
> {
    if nodes.len() == 0 {
        "No symbols matching the provided names found in the graph."@
    } else {
        pack_text(packed(store, mode, budget, empty_pack(), nodes), budget)
    }
}

/// The answer to a request for snippets.
pub open spec fn snippets(store: Store, symbols: Seq<char>, budget: nat, mode: SnippetMode) -> Seq<
    char,
> {
    if crate::notes::filled(store.meta_value("repo_root"@)) is None {
        "Snippet data unavailable: run `travsr init` to refresh the index."@
    } else if tokens(symbols).len() == 0 {
        Seq::empty()
    } else {
        items_text(store, all_denoted(store, tokens(symbols)), mode, budget)
    }
}

fn header_of(n: &Node) -> (s: String)
    ensures
        s@ == snippet_header(item(*n)),
{
    let mut s = cat3(n.signature.as_str(), " (", n.kind.as_str());
    s.append(") \u{2014} ");
    s.append(n.path.as_str());
    s.append(" [package: ");
    s.append(n.package.as_str());
    s.append("]");
    s
}

fn render(store: &Store, nodes: &Vec<Node>, mode: SnippetMode, budget: usize) -> (r: String)
    requires
        nodes@.len() > 0,
    ensures
        r@ == items_text(*store, items(nodes@), mode, budget as nat),
{
    let mut parts: Vec<String> = Vec::new();
    let mut used: u64 = 0;
    let mut with_source: usize = 0;
    let ghost mut p = empty_pack();
    let ghost all = items(nodes@);
    let ghost goal = packed(*store, mode, budget as nat, empty_pack(), all);
    let mut i: usize = 0;
    proof {
        assert(all.skip(0) =~= all);
        assert(crate::text::views(parts@) =~= Seq::<Seq<char>>::empty());
    }
    while i < nodes.len()
        invariant_except_break
            goal == packed(*store, mode, budget as nat, p, all.skip(i as int)),
        invariant
            all == items(nodes@),
            parts@.len() == 0 ==> used == 0,
            i <= nodes@.len(),
            p.parts == crate::text::views(parts@),
            p.used == used,
            p.with_source == with_source,
            with_source <= i,
            parts@.len() <= i,
        ensures
            goal == p,
        decreases nodes@.len() - i,
    {
        let n = &nodes[i];
        let ghost rest = all.skip(i as int);
        assert(rest[0] == item(*n));
        let header = header_of(n);
        let code = shown_of(store, n, mode);
        let size: usize = match code {
            Some(c) => byte_len(c.as_str()),
            None => 0,
        };
        let head_size: usize = byte_len(header.as_str());
        let cost: u128 = (head_size as u128 + size as u128) / 4 + 1;
        assert(cost == block_cost(item(*n), shown(*store, item(*n), mode)));
        assert(crate::text::views(parts@).len() == parts@.len());
        if parts.len() > 0 && used as u128 + cost > budget as u128 {
            break;
        }
        let text = match code {
            Some(c) => cat3(header.as_str(), "\n---\n", c.as_str()),
            None => header,
        };
        proof {
            crate::text::lemma_views_push(parts@, text);
            p = Pack {
                parts: p.parts.push(text@),
                used: p.used + cost as nat,
                with_source: p.with_source + if code is Some {
                    1nat
                } else {
                    0
                },
            };
            assert(rest.drop_first() =~= all.skip(i + 1));
            assert(goal == packed(*store, mode, budget as nat, p, all.skip(i + 1)));
        }
        if code.is_some() {
            with_source += 1;
        }
        parts.push(text);
        used = (used as u128 + cost) as u64;
        i += 1;
        if i == nodes.len() {
            assert(all.skip(i as int).len() == 0);
            break;
        }
    }
    let joined = join_strings(&parts, "\n\n");
    let mut out = sanitize_mcp_body_with_limit(joined.as_str(), char_cap_of(budget));
    assert(crate::text::views(parts@).len() == parts@.len());
    let a = dec_usize(parts.len());
    let b = dec_usize(with_source);
    let c = dec_u64(used);
    out.append("\n\n[");
    out.append(a.as_str());
    out.append(" symbols, ");
    out.append(b.as_str());
    out.append(" with snippets, ~");
    out.append(c.as_str());
    out.append(" tokens]");
    out
}

/// The snippets of the requested symbols, in order, as far as the budget goes.
pub fn get_snippets_body(store: &Store, symbols_arg: &str, token_budget: usize, mode: SnippetMode) -> (
r: String)
    ensures
        r@ == snippets(*store, symbols_arg@, token_budget as nat, mode),
{
    let rooted = match store.get_meta("repo_root") {
        Some(v) => !v.as_str().is_empty(),
        None => false,
    };
    if !rooted {
        return "Snippet data unavailable: run `travsr init` to refresh the index.".to_owned();
    }
    let ts = parse_symbol_tokens(symbols_arg);
    assert(token_views(ts@).len() == ts@.len());
    if ts.len() == 0 {
        return String::new();
    }
    let nodes = resolve_all(store, &ts);
    assert(items(nodes@).len() == nodes@.len());
    if nodes.len() == 0 {
        return "No symbols matching the provided names found in the graph.".to_owned();
    }
    render(store, &nodes, mode, token_budget)
}

/// A budget within its bounds.
pub open spec fn clamped(budget: nat) -> nat {
    if budget < 1 {
        1
    } else if budget > MAX_CONTEXT_BUDGET {
        MAX_CONTEXT_BUDGET as nat
    } else {
        budget
    }
}

fn clamp(budget: usize) -> (r: usize)
    ensures
        r == clamped(budget as nat),
{
    if budget < 1 {
        1
    } else if budget > MAX_CONTEXT_BUDGET {
        MAX_CONTEXT_BUDGET
    } else {
        budget
    }
}

/// The snippets of the requested symbols.
pub fn get_snippets(store: &Store, symbols: &str, token_budget: usize, mode: SnippetMode) -> (r:
    String)
    ensures
        r@ == (if crate::sanitize::list_verdict(symbols@) is Ok {
            crate::sanitize::envelope(
                snippets(*store, symbols@, clamped(token_budget as nat), mode),
            )
        } else {
            Seq::empty()
        }),
{
    if validate_mcp_list_arg(symbols).is_err() {
        return String::new();
    }
    let raw = get_snippets_body(store, symbols, clamp(token_budget), mode);
    wrap_envelope(raw.as_str())
}

/// The part of one repository in an answer over several.
pub open spec fn snippets_part(
    repo: Repo,
    store: Store,
    single: bool,
    symbols: Seq<char>,
    budget: nat,
    mode: SnippetMode,
) -> Seq<char> {
    let text = snippets(store, symbols, budget, mode);
    if text.len() == 0 || single {
        text
    } else {
        "["@ + repo.name@ + "]\n"@ + text
    }
}

/// The snippets of the requested symbols in one named repository, or in all.
pub fn get_snippets_global(
    repos: &Vec<Repo>,
    symbols: &str,
    token_budget: usize,
    repo: Option<&str>,
    mode: SnippetMode,
) -> (r: String)
    ensures
        r@ == (if crate::sanitize::list_verdict(symbols@) is Ok {
            crate::sanitize::scalar(
                crate::global::gathered(
                    repos@,
                    opt_view(repo),
                    |x: Repo, s: Store, single: bool|
                        snippets_part(
                            x,
                            s,
                            single,
                            symbols@,
                            clamped(token_budget as nat),
                            mode,
                        ),
                ),
            )
        } else {
            Seq::empty()
        }),
{
    if validate_mcp_list_arg(symbols).is_err() {
        return String::new();
    }
    let budget: usize = clamp(token_budget);
    let f = |x: &Repo, s: &Store, single: bool| -> (o: String)
        ensures
            o@ == snippets_part(*x, *s, single, symbols@, clamped(token_budget as nat), mode),
        {
            let text = get_snippets_body(s, symbols, budget, mode);
            if text.as_str().is_empty() || single {
                text
            } else {
                let mut o = cat3("[", x.name.as_str(), "]\n");
                o.append(text.as_str());
                o
            }
        };
    let raw = collect_global(
        repos,
        repo,
        f,
        Ghost(
            |x: Repo, s: Store, single: bool|
                snippets_part(x, s, single, symbols@, clamped(token_budget as nat), mode),
        ),
    );
    sanitize_for_mcp(raw.as_str())
}

// ---------------------------------------------------------------- laws

proof fn lemma_packed(store: Store, mode: SnippetMode, budget: nat, p: Pack, nodes: Seq<Item>)
    requires
        p.parts.len() > 1 ==> p.used <= budget,
    ensures
        packed(store, mode, budget, p, nodes).parts.len() >= p.parts.len(),
        packed(store, mode, budget, p, nodes).parts.len() > 1 ==> packed(
            store,
            mode,
            budget,
            p,
            nodes,
        ).used <= budget,
        nodes.len() > 0 && p.parts.len() == 0 ==> packed(store, mode, budget, p, nodes).parts.len()
            > 0,
    decreases nodes.len(),
{
    if nodes.len() > 0 {
        let code = shown(store, nodes[0], mode);
        let cost = block_cost(nodes[0], code);
        if !(p.parts.len() > 0 && p.used + cost > budget) {
            lemma_packed(
                store,
                mode,
                budget,
                Pack {
                    parts: p.parts.push(block(nodes[0], code)),
                    used: p.used + cost,
                    with_source: p.with_source + if code is Some {
                        1nat
                    } else {
                        0
                    },
                },
                nodes.drop_first(),
            );
        }
    }
}

proof fn lemma_block_bytes(n: Item, code: Option<Seq<char>>)
    ensures
        crate::width::blen(block(n, code)) + 2 <= 8 * block_cost(n, code),
{
    let h = snippet_header(n);
    reveal_strlit(" [package: ");
    crate::width::lemma_blen_positive(h);
    assert(h.len() >= " [package: "@.len());
    if let Some(c) = code {
        reveal_strlit("\n---\n");
        crate::width::lemma_blen_concat(h + "\n---\n"@, c);
        crate::width::lemma_blen_concat(h, "\n---\n"@);
        crate::width::lemma_blen_ascii("\n---\n"@);
    }
}

proof fn lemma_packed_bytes(store: Store, mode: SnippetMode, budget: nat, p: Pack, nodes: Seq<Item>)
    requires
        crate::width::blen(crate::text::join(p.parts, "\n\n"@)) <= 8 * p.used,
    ensures
        crate::width::blen(
            crate::text::join(packed(store, mode, budget, p, nodes).parts, "\n\n"@),
        ) <= 8 * packed(store, mode, budget, p, nodes).used,
    decreases nodes.len(),
{
    if nodes.len() > 0 {
        let code = shown(store, nodes[0], mode);
        let cost = block_cost(nodes[0], code);
        if !(p.parts.len() > 0 && p.used + cost > budget) {
            let b = block(nodes[0], code);
            let parts = p.parts.push(b);
            lemma_block_bytes(nodes[0], code);
            assert(parts.drop_last() =~= p.parts);
            reveal_strlit("\n\n");
            crate::width::lemma_blen_ascii("\n\n"@);
            let j = crate::text::join(p.parts, "\n\n"@);
            crate::width::lemma_blen_concat(j, "\n\n"@);
            crate::width::lemma_blen_concat(j + "\n\n"@, b);
            lemma_packed_bytes(
                store,
                mode,
                budget,
                Pack {
                    parts,
                    used: p.used + cost,
                    with_source: p.with_source + if code is Some {
                        1nat
                    } else {
                        0
                    },
                },
                nodes.drop_first(),
            );
        }
    }
}

/// Within the budget no symbol is cut: what is shown is shown whole. Only a first symbol that exceeds
/// the budget, or angle brackets, which are written longer, can reach the bound on the bytes.
pub proof fn law_no_symbol_is_cut_within_the_budget(
    store: Store,
    mode: SnippetMode,
    budget: nat,
    nodes: Seq<Item>,
)
    requires
        budget <= MAX_CONTEXT_BUDGET,
        packed(store, mode, budget, empty_pack(), nodes).used <= budget,
        !crate::text::join(
            packed(store, mode, budget, empty_pack(), nodes).parts,
            "\n\n"@,
        ).contains('<'),
        !crate::text::join(
            packed(store, mode, budget, empty_pack(), nodes).parts,
            "\n\n"@,
        ).contains('>'),
    ensures
        crate::sanitize::body(
            crate::text::join(
                packed(store, mode, budget, empty_pack(), nodes).parts,
                "\n\n"@,
            ),
            char_cap(budget),
        ) == crate::sanitize::clean(
            crate::text::join(
                packed(store, mode, budget, empty_pack(), nodes).parts,
                "\n\n"@,
            ),
        ),
{
    crate::width::lemma_blen_ascii(crate::text::join(Seq::empty(), "\n\n"@));
    lemma_packed_bytes(store, mode, budget, empty_pack(), nodes);
    crate::sanitize::lemma_clean_shrinks(
        crate::text::join(packed(store, mode, budget, empty_pack(), nodes).parts, "\n\n"@),
    );
}

/// The first symbol is always shown, and more than one only within the budget.
pub proof fn law_first_symbol_is_always_shown(
    store: Store,
    mode: SnippetMode,
    budget: nat,
    nodes: Seq<Item>,
)
    requires
        nodes.len() > 0,
    ensures
        packed(store, mode, budget, empty_pack(), nodes).parts.len() > 0,
        packed(store, mode, budget, empty_pack(), nodes).parts.len() > 1 ==> packed(
            store,
            mode,
            budget,
            empty_pack(),
            nodes,
        ).used <= budget,
{
    lemma_packed(store, mode, budget, empty_pack(), nodes);
}

proof fn lemma_split_some(s: Seq<char>, c: char, d: char)
    ensures
        crate::split::split(s, c, d).len() >= 1,
{
}

/// A separator between two texts parts their pieces.
proof fn lemma_split_at(a: Seq<char>, x: char, b: Seq<char>, c: char, d: char)
    requires
        x == c || x == d,
    ensures
        crate::split::split(a.push(x) + b, c, d) == crate::split::split(a, c, d)
            + crate::split::split(b, c, d),
    decreases b.len(),
{
    let t = a.push(x) + b;
    let sa = crate::split::split(a, c, d);
    if b.len() == 0 {
        assert(t =~= a.push(x));
        assert(a.push(x).drop_last() =~= a);
        assert(crate::split::split(t, c, d) =~= sa.push(Seq::empty()));
        assert(sa + seq![Seq::<char>::empty()] =~= sa.push(Seq::empty()));
    } else {
        let p = b.drop_last();
        lemma_split_at(a, x, p, c, d);
        assert(t.drop_last() =~= a.push(x) + p);
        assert(t.last() == b.last());
        let sp = crate::split::split(p, c, d);
        lemma_split_some(p, c, d);
        if b.last() == c || b.last() == d {
            assert((sa + sp).push(Seq::empty()) =~= sa + sp.push(Seq::empty()));
        } else {
            let e = sp.last().push(b.last());
            assert((sa + sp).last() == sp.last());
            assert((sa + sp).drop_last().push(e) =~= sa + sp.drop_last().push(e));
        }
    }
}

/// Two texts put together: the last piece of the one and the first of the other are one.
proof fn lemma_split_joined(a: Seq<char>, b: Seq<char>, c: char)
    ensures
        crate::split::split(a + b, c, c) == crate::split::split(a, c, c).drop_last() + (seq![
            crate::split::split(a, c, c).last() + crate::split::split(b, c, c)[0],
        ] + crate::split::split(b, c, c).skip(1)),
    decreases b.len(),
{
    let sa = crate::split::split(a, c, c);
    lemma_split_some(a, c, c);
    if b.len() == 0 {
        assert(a + b =~= a);
        let sb = crate::split::split(b, c, c);
        assert(sb =~= seq![Seq::<char>::empty()]);
        assert(sa.last() + sb[0] =~= sa.last());
        assert(sa =~= sa.drop_last() + (seq![sa.last() + sb[0]] + sb.skip(1)));
    } else {
        let p = b.drop_last();
        let sp = crate::split::split(p, c, c);
        let sb = crate::split::split(b, c, c);
        lemma_split_joined(a, p, c);
        lemma_split_some(p, c, c);
        assert((a + b).drop_last() =~= a + p);
        assert((a + b).last() == b.last());
        let r = sa.drop_last() + (seq![sa.last() + sp[0]] + sp.skip(1));
        let w = sa.drop_last() + (seq![sa.last() + sb[0]] + sb.skip(1));
        if b.last() == c {
            assert(r.push(Seq::empty()) =~= w);
        } else {
            let e = r.last().push(b.last());
            if sp.len() == 1 {
                assert(r.last() == sa.last() + sp[0]);
                assert(e =~= sa.last() + sb[0]);
            } else {
                assert(r.last() == sp.last());
                assert(sb[0] == sp[0]);
            }
            assert(r.drop_last().push(e) =~= w);
        }
    }
}

proof fn lemma_line_tokens(a: Seq<Seq<char>>, b: Seq<Seq<char>>)
    ensures
        line_tokens(a + b) == line_tokens(a) + line_tokens(b),
    decreases b.len(),
{
    if b.len() == 0 {
        assert(a + b =~= a);
        assert(line_tokens(a) + line_tokens(b) =~= line_tokens(a));
    } else {
        lemma_line_tokens(a, b.drop_last());
        assert((a + b).drop_last() =~= a + b.drop_last());
        assert((a + b).last() == b.last());
        let t = classified(crate::split::trim(b.last()));
        assert((line_tokens(a) + line_tokens(b.drop_last())).push(t) =~= line_tokens(a)
            + line_tokens(b.drop_last()).push(t));
    }
}

proof fn lemma_tokens_of_lines(a: Seq<Seq<char>>, b: Seq<Seq<char>>)
    ensures
        tokens_of_lines(a + b) == tokens_of_lines(a) + tokens_of_lines(b),
    decreases b.len(),
{
    if b.len() == 0 {
        assert(a + b =~= a);
        assert(tokens_of_lines(a) + tokens_of_lines(b) =~= tokens_of_lines(a));
    } else {
        lemma_tokens_of_lines(a, b.drop_last());
        assert((a + b).drop_last() =~= a + b.drop_last());
        assert((a + b).last() == b.last());
        let t = line_tokens(rejoined(crate::split::split(b.last(), ',', ',')));
        assert(tokens_of_lines(a) + tokens_of_lines(b.drop_last()) + t =~= tokens_of_lines(a) + (
        tokens_of_lines(b.drop_last()) + t));
    }
}

/// The last of the pieces is the first half of a header whose second half is missing.
pub open spec fn ends_open(pieces: Seq<Seq<char>>) -> bool
    decreases pieces.len(),
{
    if pieces.len() == 0 {
        false
    } else if pieces.len() >= 2 && is_head(pieces[0]) && is_tail(pieces[1]) {
        ends_open(pieces.skip(2))
    } else if pieces.len() == 1 {
        is_head(pieces[0])
    } else {
        ends_open(pieces.skip(1))
    }
}

/// A comma between two texts stands inside a printed header.
pub open spec fn parts_header(a: Seq<char>, b: Seq<char>) -> bool {
    let line = crate::split::split(a, '\n', '\n').last();
    let next = crate::split::split(b, '\n', '\n')[0];
    ends_open(crate::split::split(line, ',', ',')) && is_tail(crate::split::split(next, ',', ',')[0])
}

proof fn lemma_rejoined(a: Seq<Seq<char>>, b: Seq<Seq<char>>)
    requires
        b.len() > 0,
        !(ends_open(a) && is_tail(b[0])),
    ensures
        rejoined(a + b) == rejoined(a) + rejoined(b),
    decreases a.len(),
{
    let t = a + b;
    if a.len() == 0 {
        assert(t =~= b);
        assert(rejoined(a) + rejoined(b) =~= rejoined(b));
    } else if a.len() >= 2 && is_head(a[0]) && is_tail(a[1]) {
        lemma_rejoined(a.skip(2), b);
        assert(t.skip(2) =~= a.skip(2) + b);
        let h = seq![a[0] + ","@ + a[1]];
        assert(h + (rejoined(a.skip(2)) + rejoined(b)) =~= h + rejoined(a.skip(2)) + rejoined(b));
    } else {
        assert(t.skip(1) =~= a.skip(1) + b);
        if a.len() == 1 {
            assert(t[1] == b[0]);
        } else {
            assert(t[1] == a[1]);
        }
        lemma_rejoined(a.skip(1), b);
        let h = seq![a[0]];
        assert(h + (rejoined(a.skip(1)) + rejoined(b)) =~= h + rejoined(a.skip(1)) + rejoined(b));
    }
}

/// A list of symbols reads as its lines, one after the other.
pub proof fn law_lines_read_one_by_one(a: Seq<char>, b: Seq<char>)
    ensures
        tokens(a + "\n"@ + b) == tokens(a) + tokens(b),
{
    reveal_strlit("\n");
    assert(a + "\n"@ + b =~= a.push('\n') + b);
    lemma_split_at(a, '\n', b, '\n', '\n');
    lemma_tokens_of_lines(
        crate::split::split(a, '\n', '\n'),
        crate::split::split(b, '\n', '\n'),
    );
}

/// A list of symbols reads as the parts between its commas, one after the other, unless a comma stands
/// inside a printed header.
pub proof fn law_commas_part_symbols(a: Seq<char>, b: Seq<char>)
    requires
        !parts_header(a, b),
    ensures
        tokens(a + ","@ + b) == tokens(a) + tokens(b),
        tokens(a + ","@ + b) == tokens(a + "\n"@ + b),
{
    law_lines_read_one_by_one(a, b);
    reveal_strlit(",");
    let m = a.push(',');
    assert(a + ","@ + b =~= m + b);
    assert(m.drop_last() =~= a);
    let sa = crate::split::split(a, '\n', '\n');
    let sb = crate::split::split(b, '\n', '\n');
    let sm = crate::split::split(m, '\n', '\n');
    lemma_split_some(a, '\n', '\n');
    lemma_split_some(b, '\n', '\n');
    assert(sm == sa.drop_last().push(sa.last().push(',')));
    lemma_split_joined(m, b, '\n');
    let line = sa.last().push(',') + sb[0];
    assert(sm.drop_last() =~= sa.drop_last());
    lemma_split_at(sa.last(), ',', sb[0], ',', ',');
    let pa = crate::split::split(sa.last(), ',', ',');
    let pb = crate::split::split(sb[0], ',', ',');
    lemma_split_some(sb[0], ',', ',');
    lemma_rejoined(pa, pb);
    lemma_line_tokens(rejoined(pa), rejoined(pb));
    lemma_tokens_of_lines(sa.drop_last(), seq![line] + sb.skip(1));
    lemma_tokens_of_lines(seq![line], sb.skip(1));
    lemma_tokens_of_lines(seq![sb[0]], sb.skip(1));
    assert(sb =~= seq![sb[0]] + sb.skip(1));
    lemma_one_line(line);
    lemma_one_line(sb[0]);
    let (ta, tb) = (line_tokens(rejoined(pa)), line_tokens(rejoined(pb)));
    assert(tokens_of_lines(sa.drop_last()) + (ta + tb + tokens_of_lines(sb.skip(1)))
        =~= tokens_of_lines(sa.drop_last()) + ta + (tb + tokens_of_lines(sb.skip(1))));
}

proof fn lemma_one_line(line: Seq<char>)
    ensures
        tokens_of_lines(seq![line]) == line_tokens(
            rejoined(crate::split::split(line, ',', ',')),
        ),
{
    let v = seq![line];
    assert(v.drop_last() =~= Seq::<Seq<char>>::empty());
    assert(tokens_of_lines(v.drop_last()) =~= Seq::<TokenView>::empty());
    assert(v.last() == line);
    assert(tokens_of_lines(v) =~= line_tokens(rejoined(crate::split::split(line, ',', ','))));
}

/// The pieces of the lines between their commas.
spec fn pieces_of(lines: Seq<Seq<char>>) -> Seq<Seq<char>>
    decreases lines.len(),
{
    if lines.len() == 0 {
        Seq::empty()
    } else {
        pieces_of(lines.drop_last()) + crate::split::split(lines.last(), ',', ',')
    }
}

proof fn lemma_pieces_of(a: Seq<char>)
    ensures
        crate::split::split(a, '\n', ',') == pieces_of(crate::split::split(a, '\n', '\n')),
    decreases a.len(),
{
    let l = crate::split::split(a, '\n', '\n');
    if a.len() == 0 {
        assert(l.drop_last() =~= Seq::<Seq<char>>::empty());
        assert(pieces_of(l.drop_last()) =~= Seq::<Seq<char>>::empty());
        assert(l.last() == a);
        assert(crate::split::split(a, ',', ',') =~= seq![Seq::<char>::empty()]);
        assert(pieces_of(l) =~= seq![Seq::<char>::empty()]);
    } else {
        let p = a.drop_last();
        lemma_pieces_of(p);
        let lp = crate::split::split(p, '\n', '\n');
        lemma_split_some(p, '\n', '\n');
        if a.last() == '\n' {
            let e = Seq::<char>::empty();
            assert(lp.push(e).drop_last() =~= lp);
            assert(pieces_of(l) =~= pieces_of(lp).push(e));
        } else {
            let x = lp.last();
            let y = x.push(a.last());
            assert(l == lp.drop_last().push(y));
            assert(l.drop_last() =~= lp.drop_last());
            assert(y.drop_last() =~= x);
            let sx = crate::split::split(x, ',', ',');
            lemma_split_some(x, ',', ',');
            let head = pieces_of(lp.drop_last());
            if a.last() == ',' {
                assert(head + sx.push(Seq::empty()) =~= (head + sx).push(Seq::empty()));
            } else {
                let z = sx.last().push(a.last());
                assert((head + sx).last() == sx.last());
                assert(head + sx.drop_last().push(z) =~= (head + sx).drop_last().push(z));
            }
        }
    }
}

/// No two neighbours are the halves of a header.
pub open spec fn is_whole(pieces: Seq<Seq<char>>) -> bool {
    forall|i: int| 0 <= i < pieces.len() - 1 ==> !(is_head(#[trigger] pieces[i]) && is_tail(
        pieces[i + 1],
    ))
}

proof fn lemma_whole(pieces: Seq<Seq<char>>)
    requires
        is_whole(pieces),
    ensures
        rejoined(pieces) == pieces,
    decreases pieces.len(),
{
    if pieces.len() > 0 {
        let rest = pieces.skip(1);
        assert forall|i: int| 0 <= i < rest.len() - 1 implies !(is_head(#[trigger] rest[i])
            && is_tail(rest[i + 1])) by {
            assert(rest[i] == pieces[i + 1]);
            assert(rest[i + 1] == pieces[i + 2]);
        }
        lemma_whole(rest);
        assert(pieces.len() >= 2 ==> !(is_head(pieces[0]) && is_tail(pieces[1])));
        assert(seq![pieces[0]] + rest =~= pieces);
    } else {
        assert(rejoined(pieces) =~= pieces);
    }
}

proof fn lemma_whole_lines(lines: Seq<Seq<char>>)
    requires
        forall|i: int|
            0 <= i < lines.len() ==> is_whole(
                crate::split::split(#[trigger] lines[i], ',', ','),
            ),
    ensures
        tokens_of_lines(lines) == line_tokens(pieces_of(lines)),
    decreases lines.len(),
{
    if lines.len() > 0 {
        let rest = lines.drop_last();
        assert forall|i: int| 0 <= i < rest.len() implies is_whole(
            crate::split::split(#[trigger] rest[i], ',', ','),
        ) by {
            assert(rest[i] == lines[i]);
        }
        lemma_whole_lines(rest);
        assert(is_whole(crate::split::split(lines[lines.len() - 1], ',', ',')));
        lemma_whole(crate::split::split(lines.last(), ',', ','));
        lemma_line_tokens(pieces_of(rest), crate::split::split(lines.last(), ',', ','));
    }
}

proof fn lemma_nonblank(pieces: Seq<Seq<char>>)
    ensures
        line_tokens(pieces) == pieces.map_values(|p: Seq<char>| crate::split::trim(p)).filter(
            |t: Seq<char>| t.len() > 0,
        ).map_values(|t: Seq<char>| classified(t)),
    decreases pieces.len(),
{
    reveal(Seq::filter);
    let trimmed = pieces.map_values(|p: Seq<char>| crate::split::trim(p));
    if pieces.len() > 0 {
        let rest = pieces.drop_last();
        lemma_nonblank(rest);
        assert(trimmed.drop_last() =~= rest.map_values(|p: Seq<char>| crate::split::trim(p)));
        let kept = trimmed.drop_last().filter(|t: Seq<char>| t.len() > 0);
        let t = crate::split::trim(pieces.last());
        assert(trimmed.last() == t);
        assert(kept.push(t).map_values(|t: Seq<char>| classified(t)) =~= kept.map_values(
            |t: Seq<char>| classified(t),
        ).push(classified(t)));
    } else {
        assert(line_tokens(pieces) =~= Seq::<TokenView>::empty());
    }
}

/// A list of symbols gives one token, in order, for each piece between its lines and commas that is
/// not blank, unless a comma stands inside a printed header.
pub proof fn law_one_token_per_piece(symbols: Seq<char>)
    requires
        forall|i: int|
            0 <= i < crate::split::split(symbols, '\n', '\n').len() ==> is_whole(
                crate::split::split(
                    #[trigger] crate::split::split(symbols, '\n', '\n')[i],
                    ',',
                    ',',
                ),
            ),
    ensures
        tokens(symbols) == crate::split::split(symbols, '\n', ',').map_values(
            |p: Seq<char>| crate::split::trim(p),
        ).filter(|t: Seq<char>| t.len() > 0).map_values(|t: Seq<char>| classified(t)),
{
    lemma_whole_lines(crate::split::split(symbols, '\n', '\n'));
    lemma_pieces_of(symbols);
    lemma_nonblank(crate::split::split(symbols, '\n', ','));
}

} // verus!
