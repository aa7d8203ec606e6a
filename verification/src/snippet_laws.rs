//! What an answer with snippets shows.

use vstd::prelude::*;

use crate::lines::holds;
use crate::snippets::{
    all_denoted, block, block_cost, denoted, empty_pack, item, packed, shown, snippets, tokens, Item,
    Pack, SnippetMode, TokenView,
};
use crate::store::{Node, Store};

verus! {

// ---------------------------------------------------------------- what a request denotes

/// What some symbols and then others denote is what all of them denote, in that order; and what one symbol
/// denotes is denoted by the request for it alone.
pub proof fn law_requests_add_up(store: Store, a: Seq<TokenView>, b: Seq<TokenView>)
    ensures
        all_denoted(store, a + b) == all_denoted(store, a) + all_denoted(store, b),
        a.len() == 1 ==> all_denoted(store, a) == denoted(store, a[0]),
    decreases b.len(),
{
    reveal_with_fuel(all_denoted, 2);
    if a.len() == 1 {
        assert(all_denoted(store, a.drop_last()) + denoted(store, a.last()) =~= denoted(store, a[0]));
    }
    if b.len() == 0 {
        assert(a + b =~= a);
        assert(all_denoted(store, a) + all_denoted(store, b) =~= all_denoted(store, a));
    } else {
        assert((a + b).drop_last() =~= a + b.drop_last());
        law_requests_add_up(store, a, b.drop_last());
        assert(all_denoted(store, a + b) =~= all_denoted(store, a) + all_denoted(store, b));
    }
}

/// Everything that any one symbol of a request denotes is denoted by the request.
pub proof fn law_no_requested_symbol_is_ignored(store: Store, ts: Seq<TokenView>, k: int, x: Item)
    requires
        0 <= k < ts.len(),
        denoted(store, ts[k]).contains(x),
    ensures
        all_denoted(store, ts).contains(x),
{
    let a = ts.take(k);
    let one = seq![ts[k]];
    let b = ts.skip(k + 1);
    assert(ts =~= a + one + b);
    law_requests_add_up(store, a, one);
    law_requests_add_up(store, a + one, b);
    law_requests_add_up(store, one, Seq::empty());
    crate::graph_laws::lemma_concat_contains(all_denoted(store, a), all_denoted(store, one), x);
    crate::graph_laws::lemma_concat_contains(
        all_denoted(store, a + one),
        all_denoted(store, b),
        x,
    );
}

/// A symbol that is asked for by the id of its node, unless that is a file, denotes that node; by its signature
/// and path, the first node recorded for them; by a path and a line, those lines; by a name, the first nodes
/// that the name resolves to.
pub proof fn law_symbols_denote_their_nodes(store: Store, t: TokenView)
    ensures
        t matches TokenView::NodeId(id) ==> (store.node(id as u64) matches Some(n) ==> n.kind@
            != "file"@ ==> denoted(store, t) == seq![item(n)]),
        t matches TokenView::NodeId(id) ==> store.node(id as u64) is None ==> denoted(store, t).len()
            == 0,
        t matches TokenView::FullHeader { sig, path } ==> store.exact_hits(sig, Some(path)).len() > 0
            ==> denoted(store, t) == seq![item(store.exact_hits(sig, Some(path))[0])],
        t matches TokenView::PathLine { path, start, end } ==> denoted(store, t).len() == 1 && denoted(
            store,
            t,
        )[0].path == path && denoted(store, t)[0].kind == "source-range"@,
        t matches TokenView::PathLine { path, start, end } ==> start <= u32::MAX ==> denoted(
            store,
            t,
        )[0].line == Some(start as u32),
        t matches TokenView::PathLine { path, start, end } ==> (end matches Some(e) ==> e <= u32::MAX
            ==> denoted(store, t)[0].end_line == Some(e as u32)),
        t matches TokenView::BareSig(sig) ==> forall|i: int|
            0 <= i < crate::refs::resolved(store, sig, None).len() && i
                < 3 ==> i < denoted(store, t).len()
                && #[trigger] denoted(store, t)[i] == item(crate::refs::resolved(store, sig, None)[i]),
{
}

/// What is printed of a node is its own name, kind, place and extent.
pub proof fn law_items_are_their_nodes(n: Node)
    ensures
        item(n).sig == n.signature@,
        item(n).kind == n.kind@,
        item(n).path == n.path@,
        item(n).package == n.package@,
        item(n).line == n.line,
        item(n).end_line == n.end_line,
{
}

// ---------------------------------------------------------------- what is packed

/// What one symbol costs: a token per four bytes of its header and source, and one more.
pub open spec fn cost_of(store: Store, mode: SnippetMode, n: Item) -> nat {
    let header = n.sig + " ("@ + n.kind + ") \u{2014} "@ + n.path + " [package: "@ + n.package + "]"@;
    let code = match shown(store, n, mode) {
        Some(c) => vstd::utf8::encode_utf8(c).len(),
        None => 0,
    };
    ((vstd::utf8::encode_utf8(header).len() + code) / 4 + 1) as nat
}

/// What some symbols cost together.
pub open spec fn total_cost(store: Store, mode: SnippetMode, nodes: Seq<Item>) -> nat
    decreases nodes.len(),
{
    if nodes.len() == 0 {
        0
    } else {
        total_cost(store, mode, nodes.drop_last()) + cost_of(store, mode, nodes.last())
    }
}

/// How many of the symbols have a source.
pub open spec fn with_code(store: Store, mode: SnippetMode, nodes: Seq<Item>) -> nat {
    nodes.filter(|n: Item| shown(store, n, mode) is Some).len()
}

/// The block of a symbol: its header, and below a line of dashes its source.
pub open spec fn shows_block(store: Store, mode: SnippetMode, n: Item, b: Seq<char>) -> bool {
    let header = n.sig + " ("@ + n.kind + ") \u{2014} "@ + n.path + " [package: "@ + n.package + "]"@;
    b == match shown(store, n, mode) {
        Some(c) => header + "\n---\n"@ + c,
        None => header,
    }
}

/// The pack is what the first symbols make: one block each, their cost, and their number of sources.
spec fn is_pack_of(store: Store, mode: SnippetMode, p: Pack, nodes: Seq<Item>) -> bool {
    &&& p.parts.len() == nodes.len()
    &&& forall|i: int| 0 <= i < nodes.len() ==> shows_block(store, mode, nodes[i], #[trigger] p.parts[i])
    &&& p.used == total_cost(store, mode, nodes)
    &&& p.with_source == with_code(store, mode, nodes)
}

proof fn lemma_packed_is(
    store: Store,
    mode: SnippetMode,
    budget: nat,
    all: Seq<Item>,
    k: int,
    p: Pack,
) -> (m: int)
    requires
        0 <= k <= all.len(),
        is_pack_of(store, mode, p, all.take(k)),
    ensures
        k <= m <= all.len(),
        is_pack_of(store, mode, packed(store, mode, budget, p, all.skip(k)), all.take(m)),
        m < all.len() ==> m > 0 && total_cost(store, mode, all.take(m + 1)) > budget,
    decreases all.len() - k,
{
    reveal(Seq::filter);
    let rest = all.skip(k);
    if k == all.len() {
        k
    } else {
        let n = rest[0];
        let code = shown(store, n, mode);
        let cost = block_cost(n, code);
        let more = all.take(k + 1);
        assert(more.drop_last() =~= all.take(k));
        assert(more.last() == n);
        crate::width::lemma_blen_ascii(Seq::empty());
        assert(cost == cost_of(store, mode, n));
        if p.parts.len() > 0 && p.used + cost > budget {
            k
        } else {
            let q = Pack {
                parts: p.parts.push(block(n, code)),
                used: p.used + cost,
                with_source: p.with_source + if code is Some {
                    1nat
                } else {
                    0
                },
            };
            assert(shows_block(store, mode, n, block(n, code)));
            assert(is_pack_of(store, mode, q, more)) by {
                assert forall|i: int| 0 <= i < more.len() implies shows_block(
                    store,
                    mode,
                    more[i],
                    #[trigger] q.parts[i],
                ) by {
                    if i < k {
                        assert(q.parts[i] == p.parts[i]);
                        assert(more[i] == all.take(k)[i]);
                    }
                }
            }
            assert(rest.drop_first() =~= all.skip(k + 1));
            lemma_packed_is(store, mode, budget, all, k + 1, q)
        }
    }
}

/// What is shown are the first symbols of the request, each as its block, in order: all of them, or as many as the
/// budget holds, and the first in any case. The cost and the number of sources are those of what is shown.
pub proof fn law_packed_symbols_are_the_first_that_fit(
    store: Store,
    mode: SnippetMode,
    budget: nat,
    nodes: Seq<Item>,
)
    ensures
        ({
            let p = packed(store, mode, budget, empty_pack(), nodes);
            let m = p.parts.len() as int;
            &&& m <= nodes.len()
            &&& forall|i: int| 0 <= i < m ==> shows_block(store, mode, nodes[i], #[trigger] p.parts[i])
            &&& p.used == total_cost(store, mode, nodes.take(m))
            &&& p.with_source == with_code(store, mode, nodes.take(m))
            &&& m < nodes.len() ==> m > 0 && total_cost(store, mode, nodes.take(m + 1)) > budget
        }),
{
    reveal(Seq::filter);
    assert(nodes.take(0) =~= Seq::<Item>::empty());
    assert(nodes.skip(0) =~= nodes);
    let m = lemma_packed_is(store, mode, budget, nodes, 0, empty_pack());
    let p = packed(store, mode, budget, empty_pack(), nodes);
    assert forall|i: int| 0 <= i < m implies shows_block(store, mode, nodes[i], #[trigger] p.parts[i]) by {
        assert(nodes.take(m)[i] == nodes[i]);
    }
}

proof fn lemma_cost_grows(store: Store, mode: SnippetMode, nodes: Seq<Item>, m: int)
    requires
        0 <= m <= nodes.len(),
    ensures
        total_cost(store, mode, nodes.take(m)) <= total_cost(store, mode, nodes),
    decreases nodes.len(),
{
    if m < nodes.len() {
        lemma_cost_grows(store, mode, nodes.drop_last(), m);
        assert(nodes.drop_last().take(m) =~= nodes.take(m));
    } else {
        assert(nodes.take(m) =~= nodes);
    }
}

/// Where all symbols of a request fit the budget together, each of them is shown.
pub proof fn law_every_symbol_is_shown_where_all_fit(
    store: Store,
    mode: SnippetMode,
    budget: nat,
    nodes: Seq<Item>,
)
    requires
        total_cost(store, mode, nodes) <= budget,
    ensures
        packed(store, mode, budget, empty_pack(), nodes).parts.len() == nodes.len(),
        packed(store, mode, budget, empty_pack(), nodes).with_source == with_code(store, mode, nodes),
        packed(store, mode, budget, empty_pack(), nodes).used == total_cost(store, mode, nodes),
        forall|i: int|
            0 <= i < nodes.len() ==> shows_block(
                store,
                mode,
                nodes[i],
                #[trigger] packed(store, mode, budget, empty_pack(), nodes).parts[i],
            ),
{
    law_packed_symbols_are_the_first_that_fit(store, mode, budget, nodes);
    let m = packed(store, mode, budget, empty_pack(), nodes).parts.len() as int;
    if m < nodes.len() {
        lemma_cost_grows(store, mode, nodes, m + 1);
    } else {
        assert(nodes.take(m) =~= nodes);
    }
}

// ---------------------------------------------------------------- the answer

/// The last line of an answer.
pub open spec fn last_line(p: Pack) -> Seq<char> {
    "\n\n["@ + crate::text::dec(p.parts.len()) + " symbols, "@ + crate::text::dec(p.with_source)
        + " with snippets, ~"@ + crate::text::dec(p.used) + " tokens]"@
}

proof fn lemma_answer(store: Store, symbols: Seq<char>, budget: nat, mode: SnippetMode, nodes: Seq<Item>)
    requires
        store.meta_value("repo_root"@) matches Some(r) && r.len() > 0,
        nodes == all_denoted(store, tokens(symbols)),
        nodes.len() > 0,
    ensures
        snippets(store, symbols, budget, mode) == crate::sanitize::body(
            crate::text::join(packed(store, mode, budget, empty_pack(), nodes).parts, "\n\n"@),
            crate::snippets::char_cap(budget),
        ) + last_line(packed(store, mode, budget, empty_pack(), nodes)),
{
    let p = packed(store, mode, budget, empty_pack(), nodes);
    let b = crate::sanitize::body(
        crate::text::join(p.parts, "\n\n"@),
        crate::snippets::char_cap(budget),
    );
    assert(crate::snippets::pack_text(p, budget) =~= b + last_line(p));
}

proof fn lemma_block_in_answer(store: Store, mode: SnippetMode, budget: nat, p: Pack, i: int)
    requires
        0 <= i < p.parts.len(),
        crate::sanitize::is_plain(crate::text::join(p.parts, "\n\n"@)),
        crate::width::blen(crate::text::join(p.parts, "\n\n"@)) <= crate::snippets::char_cap(budget),
    ensures
        holds(
            crate::sanitize::body(
                crate::text::join(p.parts, "\n\n"@),
                crate::snippets::char_cap(budget),
            ) + last_line(p),
            p.parts[i],
        ),
{
    let t = crate::text::join(p.parts, "\n\n"@);
    crate::sanitize::law_plain_text_is_kept(t);
    crate::lines::lemma_join_holds(p.parts, "\n\n"@, i);
    crate::lines::lemma_holds_around(Seq::empty(), t, last_line(p), p.parts[i]);
}

/// Every item that any symbol of a request denotes stands in the answer with its source, where all of them fit the
/// budget; as long as the text is plain and within the bound on its bytes.
pub proof fn law_requested_source_is_in_the_answer(
    store: Store,
    symbols: Seq<char>,
    budget: nat,
    mode: SnippetMode,
    k: int,
    x: Item,
)
    requires
        store.meta_value("repo_root"@) matches Some(r) && r.len() > 0,
        0 <= k < tokens(symbols).len(),
        denoted(store, tokens(symbols)[k]).contains(x),
        total_cost(store, mode, all_denoted(store, tokens(symbols))) <= budget,
        ({
            let t = crate::text::join(
                packed(store, mode, budget, empty_pack(), all_denoted(store, tokens(symbols))).parts,
                "\n\n"@,
            );
            crate::sanitize::is_plain(t) && crate::width::blen(t) <= crate::snippets::char_cap(budget)
        }),
    ensures
        exists|b: Seq<char>| #[trigger]
            shows_block(store, mode, x, b) && holds(snippets(store, symbols, budget, mode), b),
{
    let ts = tokens(symbols);
    let nodes = all_denoted(store, ts);
    law_no_requested_symbol_is_ignored(store, ts, k, x);
    let i = choose|i: int| 0 <= i < nodes.len() && nodes[i] == x;
    law_every_symbol_is_shown_where_all_fit(store, mode, budget, nodes);
    let p = packed(store, mode, budget, empty_pack(), nodes);
    assert(shows_block(store, mode, x, p.parts[i]));
    lemma_answer(store, symbols, budget, mode, nodes);
    lemma_block_in_answer(store, mode, budget, p, i);
}

/// The last line of an answer tells how many symbols are shown, how many of them with source, and what they cost.
pub proof fn law_last_line_counts_what_is_shown(
    store: Store,
    symbols: Seq<char>,
    budget: nat,
    mode: SnippetMode,
)
    requires
        store.meta_value("repo_root"@) matches Some(r) && r.len() > 0,
        all_denoted(store, tokens(symbols)).len() > 0,
    ensures
        ({
            let p = packed(store, mode, budget, empty_pack(), all_denoted(store, tokens(symbols)));
            holds(
                snippets(store, symbols, budget, mode),
                "\n\n["@ + crate::text::dec(p.parts.len()) + " symbols, "@ + crate::text::dec(
                    p.with_source,
                ) + " with snippets, ~"@ + crate::text::dec(p.used) + " tokens]"@,
            )
        }),
{
    let nodes = all_denoted(store, tokens(symbols));
    let p = packed(store, mode, budget, empty_pack(), nodes);
    lemma_answer(store, symbols, budget, mode, nodes);
    crate::lines::lemma_holds_itself(
        crate::sanitize::body(
            crate::text::join(p.parts, "\n\n"@),
            crate::snippets::char_cap(budget),
        ),
        last_line(p),
        Seq::empty(),
    );
}

// ---------------------------------------------------------------- which form of a source

/// A whole symbol is asked for and shown whole, an outline as an outline, where there is one; and where the wanted
/// form is not recorded, the other is shown.
pub proof fn law_mode_chooses_the_source(store: Store, n: Item)
    requires
        n.kind != "source-range"@,
        crate::snippets::source_of(store.sources@, n) is Some,
    ensures
        ({
            let s = crate::snippets::source_of(store.sources@, n)->0;
            &&& s.full matches Some(c) ==> shown(store, n, SnippetMode::Full) == Some(c@)
            &&& s.full is None ==> (s.skeleton matches Some(c) ==> shown(store, n, SnippetMode::Full)
                == Some(c@))
            &&& s.skeleton matches Some(c) ==> shown(store, n, SnippetMode::Skeleton) == Some(c@)
            &&& s.skeleton is None ==> (s.capped matches Some(c) ==> shown(
                store,
                n,
                SnippetMode::Skeleton,
            ) == Some(c@))
            &&& s.capped is Some || s.skeleton is Some ==> shown(store, n, SnippetMode::Auto) is Some
            &&& n.line is Some && n.end_line is Some && n.end_line->0 - n.line->0 <= s.line_cap ==> (
            s.capped matches Some(c) ==> shown(store, n, SnippetMode::Auto) == Some(c@))
            &&& n.line is Some && n.end_line is Some && n.end_line->0 - n.line->0 > s.line_cap ==> (
            s.skeleton matches Some(c) ==> shown(store, n, SnippetMode::Auto) == Some(c@))
        }),
{
}

/// The source of a node is one that is recorded for its file, kind and lines; and where any is, there is one.
pub proof fn law_source_is_the_recorded_one(store: Store, n: Item)
    ensures
        crate::snippets::source_of(store.sources@, n) matches Some(s) ==> store.sources@.contains(s)
            && s.path@ == n.path && s.kind@ == n.kind && s.line == n.line && s.end_line == n.end_line,
        crate::snippets::source_of(store.sources@, n) is None ==> forall|i: int|
            0 <= i < store.sources@.len() ==> !((#[trigger] store.sources@[i]).path@ == n.path
                && store.sources@[i].kind@ == n.kind && store.sources@[i].line == n.line
                && store.sources@[i].end_line == n.end_line),
{
    lemma_source_of(store.sources@, n);
}

proof fn lemma_source_of(v: Seq<crate::store::SourceText>, n: Item)
    ensures
        crate::snippets::source_of(v, n) matches Some(s) ==> v.contains(s) && s.path@ == n.path
            && s.kind@ == n.kind && s.line == n.line && s.end_line == n.end_line,
        crate::snippets::source_of(v, n) is None ==> forall|i: int|
            0 <= i < v.len() ==> !((#[trigger] v[i]).path@ == n.path && v[i].kind@ == n.kind
                && v[i].line == n.line && v[i].end_line == n.end_line),
    decreases v.len(),
{
    if v.len() > 0 {
        let p = v.drop_last();
        lemma_source_of(p, n);
        assert(v =~= p.push(v.last()));
        if let Some(s) = crate::snippets::source_of(v, n) {
            crate::store::lemma_push_contains(p, v.last(), s);
        } else {
            assert forall|i: int| 0 <= i < v.len() implies !((#[trigger] v[i]).path@ == n.path
                && v[i].kind@ == n.kind && v[i].line == n.line && v[i].end_line == n.end_line) by {
                if i < p.len() {
                    assert(p[i] == v[i]);
                }
            }
        }
    }
}

} // verus!
