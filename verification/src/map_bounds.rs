//! The size of the orientation map, with what is put in front of each of its lines.

use vstd::prelude::*;

use crate::repo_map::{
    body, file_line, footer, frame, map_view, repo_map, with_files, with_regions, Draft, Frame,
    MapView,
};
use crate::sanitize::SCALAR_LIMIT;
use crate::store::{Node, Store};

verus! {

// ---------------------------------------------------------------- lines of a text

/// The number of line feeds in a text.
pub open spec fn breaks(s: Seq<char>) -> nat
    decreases s.len(),
{
    if s.len() == 0 {
        0
    } else {
        breaks(s.drop_last()) + if s.last() == '\n' {
            1nat
        } else {
            0
        }
    }
}

proof fn lemma_breaks_concat(a: Seq<char>, b: Seq<char>)
    ensures
        breaks(a + b) == breaks(a) + breaks(b),
    decreases b.len(),
{
    if b.len() == 0 {
        assert(a + b =~= a);
    } else {
        assert((a + b).drop_last() =~= a + b.drop_last());
        lemma_breaks_concat(a, b.drop_last());
    }
}

proof fn lemma_no_breaks(s: Seq<char>)
    requires
        !s.contains('\n'),
    ensures
        breaks(s) == 0,
    decreases s.len(),
{
    if s.len() > 0 {
        assert(s[s.len() - 1] != '\n');
        assert forall|i: int| 0 <= i < s.drop_last().len() implies s.drop_last()[i] != '\n' by {
            assert(s.drop_last()[i] == s[i]);
        }
        lemma_no_breaks(s.drop_last());
    }
}

proof fn lemma_split_breaks(s: Seq<char>)
    ensures
        crate::split::split(s, '\n', '\n').len() == breaks(s) + 1,
        s.len() > 0 && s.last() == '\n' ==> crate::split::split(s, '\n', '\n').last().len() == 0,
    decreases s.len(),
{
    if s.len() > 0 {
        lemma_split_breaks(s.drop_last());
    }
}

/// A text made of whole lines: it is empty, or ends in a line feed.
pub open spec fn is_ended(s: Seq<char>) -> bool {
    s.len() == 0 || s.last() == '\n'
}

proof fn lemma_ended_lines(s: Seq<char>)
    requires
        is_ended(s),
    ensures
        crate::split::lines(s).len() == breaks(s),
{
    lemma_split_breaks(s);
}

/// A single line with its line feed.
pub open spec fn is_line(s: Seq<char>) -> bool {
    breaks(s) == 1 && s.len() > 0 && s.last() == '\n'
}

proof fn lemma_line(s: Seq<char>)
    requires
        !s.contains('\n'),
    ensures
        is_line(s + "\n"@),
{
    reveal_strlit("\n");
    lemma_no_breaks(s);
    assert((s + "\n"@).drop_last() =~= s);
}

proof fn lemma_concat_one_line(a: Seq<char>, b: Seq<char>)
    requires
        !a.contains('\n'),
        !b.contains('\n'),
    ensures
        !(a + b).contains('\n'),
{
    if (a + b).contains('\n') {
        let i = choose|i: int| 0 <= i < (a + b).len() && (a + b)[i] == '\n';
        if i < a.len() {
            assert(a[i] == '\n');
        } else {
            assert(b[i - a.len()] == '\n');
        }
    }
}

proof fn lemma_dec_one_line(n: nat)
    ensures
        !crate::text::dec(n).contains('\n'),
    decreases n,
{
    if n >= 10 {
        lemma_dec_one_line(n / 10);
        let p = crate::text::dec(n / 10);
        let d = crate::text::digit(n % 10);
        crate::store::lemma_push_contains(p, d, '\n');
    } else {
        assert(seq![crate::text::digit(n)] =~= Seq::<char>::empty().push(crate::text::digit(n)));
    }
}

proof fn lemma_join_one_line(parts: Seq<Seq<char>>, sep: Seq<char>)
    requires
        !sep.contains('\n'),
        forall|i: int| 0 <= i < parts.len() ==> !(#[trigger] parts[i]).contains('\n'),
    ensures
        !crate::text::join(parts, sep).contains('\n'),
    decreases parts.len(),
{
    if parts.len() > 1 {
        let p = parts.drop_last();
        assert forall|i: int| 0 <= i < p.len() implies !(#[trigger] p[i]).contains('\n') by {
            assert(p[i] == parts[i]);
        }
        lemma_join_one_line(p, sep);
        lemma_concat_one_line(crate::text::join(p, sep), sep);
        lemma_concat_one_line(crate::text::join(p, sep) + sep, parts.last());
    }
}

// ---------------------------------------------------------------- lengths of numbers

spec fn tens(k: nat) -> nat
    decreases k,
{
    if k == 0 {
        1
    } else {
        10 * tens((k - 1) as nat)
    }
}

proof fn lemma_dec_length(n: nat, k: nat)
    requires
        n < tens(k),
        k > 0,
    ensures
        crate::text::dec(n).len() <= k,
        crate::width::blen(crate::text::dec(n)) <= 4 * k,
    decreases k,
{
    if n >= 10 {
        assert(k > 1) by {
            reveal_with_fuel(tens, 2);
        }
        lemma_dec_length(n / 10, (k - 1) as nat);
    }
    crate::width::lemma_blen_ascii(crate::text::dec(n));
}

// ---------------------------------------------------------------- lines of the map

/// No path and no signature holds a line feed.
pub open spec fn is_one_lined(nodes: Seq<Node>) -> bool {
    forall|i: int|
        0 <= i < nodes.len() ==> !(#[trigger] nodes[i]).path@.contains('\n')
            && !nodes[i].signature@.contains('\n')
}

proof fn lemma_kept_one_lined(nodes: Seq<Node>, p: spec_fn(Node) -> bool)
    requires
        is_one_lined(nodes),
    ensures
        is_one_lined(crate::store::kept(nodes, p)),
{
    crate::store::lemma_kept(nodes, p);
    let k = crate::store::kept(nodes, p);
    assert forall|i: int| 0 <= i < k.len() implies !(#[trigger] k[i]).path@.contains('\n')
        && !k[i].signature@.contains('\n') by {
        assert(k.contains(k[i]));
        let j = choose|j: int| 0 <= j < nodes.len() && nodes[j] == k[i];
        assert(!nodes[j].path@.contains('\n'));
    }
}

proof fn lemma_sorted_one_line(v: Seq<Seq<char>>)
    requires
        forall|i: int| 0 <= i < v.len() ==> !(#[trigger] v[i]).contains('\n'),
    ensures
        forall|i: int|
            0 <= i < crate::order::sorted_of(v.to_set()).len()
                ==> !(#[trigger] crate::order::sorted_of(v.to_set())[i]).contains('\n'),
        crate::order::sorted_of(v.to_set()).len() <= v.len(),
{
    let s = v.to_set();
    v.lemma_cardinality_of_set();
    crate::order::law_finite_set_is_sorted(s);
    let w = crate::order::sorted_of(s);
    assert forall|i: int| 0 <= i < w.len() implies !(#[trigger] w[i]).contains('\n') by {
        assert(w.to_set().contains(w[i]));
        let j = choose|j: int| 0 <= j < v.len() && v[j] == w[i];
        assert(!v[j].contains('\n'));
    }
}

proof fn lemma_region_one_line(path: Seq<char>, regions: Seq<Seq<char>>)
    requires
        !path.contains('\n'),
    ensures
        !crate::regions::region_of(path, regions).contains('\n'),
{
    reveal_strlit("(root)");
    let r = crate::regions::region_of(path, regions);
    if let Some(cut) = crate::text::first_of(path, '/') {
        if let Some(i) = crate::regions::first_above(path, regions) {
            crate::regions::lemma_first_above(path, regions);
            assert(path.take(r.len() as int) == r);
        }
        if r.contains('\n') {
            let i = choose|i: int| 0 <= i < r.len() && r[i] == '\n';
            if crate::regions::first_above(path, regions) is None {
                crate::regions::lemma_first_of(path);
            }
            assert(path[i] == '\n');
        }
    }
}

proof fn lemma_name_line(m: MapView, r: Seq<char>)
    requires
        !r.contains('\n'),
    ensures
        is_line(m.name_line(r)),
{
    reveal_strlit("  symbols: ");
    reveal_strlit("  dependents: ");
    lemma_dec_one_line(m.volume(r));
    lemma_dec_one_line(m.dependents(r));
    let head = if m.flat() {
        r
    } else {
        lemma_concat_one_line(r, "  dependents: "@);
        lemma_concat_one_line(r + "  dependents: "@, crate::text::dec(m.dependents(r)));
        r + "  dependents: "@ + crate::text::dec(m.dependents(r))
    };
    lemma_concat_one_line(head, "  symbols: "@);
    lemma_concat_one_line(head + "  symbols: "@, crate::text::dec(m.volume(r)));
    lemma_line(head + "  symbols: "@ + crate::text::dec(m.volume(r)));
}

proof fn lemma_names_left_one_line(n: nat)
    ensures
        !crate::repo_map::names_left(n).contains('\n'),
{
    reveal_strlit(", … (+");
    reveal_strlit(")");
    if n > crate::repo_map::MAX_SYMBOLS_PER_FILE {
        let d = crate::text::dec((n - crate::repo_map::MAX_SYMBOLS_PER_FILE) as nat);
        lemma_dec_one_line((n - crate::repo_map::MAX_SYMBOLS_PER_FILE) as nat);
        lemma_concat_one_line(", … (+"@, d);
        lemma_concat_one_line(", … (+"@ + d, ")"@);
    }
}

proof fn lemma_file_symbols_one_lined(syms: Seq<Node>, path: Seq<char>)
    requires
        is_one_lined(syms),
    ensures
        is_one_lined(crate::repo_map::file_symbols(syms, path)),
    decreases syms.len(),
{
    if syms.len() > 0 {
        let p = syms.drop_last();
        assert forall|i: int| 0 <= i < p.len() implies !(#[trigger] p[i]).path@.contains('\n')
            && !p[i].signature@.contains('\n') by {
            assert(p[i] == syms[i]);
        }
        lemma_file_symbols_one_lined(p, path);
        assert(!syms[syms.len() - 1].path@.contains('\n'));
    }
}

proof fn lemma_file_line(syms: Seq<Node>, path: Seq<char>)
    requires
        is_one_lined(syms),
        !path.contains('\n'),
    ensures
        is_line(file_line(syms, path)),
{
    let there = crate::repo_map::file_symbols(syms, path);
    lemma_file_symbols_one_lined(syms, path);
    let sigs = crate::repo_map::node_signatures(there);
    assert forall|i: int| 0 <= i < sigs.len() implies !(#[trigger] sigs[i]).contains('\n') by {
        assert(!there[i].path@.contains('\n'));
    }
    lemma_sorted_one_line(sigs);
    let names = crate::repo_map::file_names(syms, path);
    let shown = if names.len() > crate::repo_map::MAX_SYMBOLS_PER_FILE {
        names.take(crate::repo_map::MAX_SYMBOLS_PER_FILE as int)
    } else {
        names
    };
    assert forall|i: int| 0 <= i < shown.len() implies !(#[trigger] shown[i]).contains('\n') by {
        assert(shown[i] == names[i]);
    }
    reveal_strlit(", ");
    reveal_strlit("  ");
    reveal_strlit("  [");
    reveal_strlit(" symbol]  ");
    reveal_strlit(" symbols]  ");
    let list = crate::text::join(shown, ", "@);
    lemma_join_one_line(shown, ", "@);
    lemma_dec_one_line(names.len());
    lemma_names_left_one_line(names.len());
    let noun = if names.len() == 1 {
        " symbol]  "@
    } else {
        " symbols]  "@
    };
    let a = "  "@ + path;
    lemma_concat_one_line("  "@, path);
    let b = a + "  ["@;
    lemma_concat_one_line(a, "  ["@);
    let c = b + crate::text::dec(names.len());
    lemma_concat_one_line(b, crate::text::dec(names.len()));
    let d = c + noun;
    lemma_concat_one_line(c, noun);
    let e = d + list;
    lemma_concat_one_line(d, list);
    lemma_concat_one_line(e, crate::repo_map::names_left(names.len()));
    lemma_line(e + crate::repo_map::names_left(names.len()));
}

/// The draft is made of as many whole lines as it counts, those that name components among them.
spec fn counts_lines(d: Draft) -> bool {
    is_ended(d.text) && breaks(d.text) == d.lines && d.named <= d.lines
}

proof fn lemma_add_line(d: Draft, line: Seq<char>, named: nat)
    requires
        counts_lines(d),
        is_line(line),
        named <= d.lines + 1,
    ensures
        counts_lines(Draft { text: d.text + line, lines: d.lines + 1, named }),
{
    lemma_breaks_concat(d.text, line);
    assert((d.text + line).last() == line.last());
}

proof fn lemma_files_counted(f: Frame, d: Draft, files: Seq<Seq<char>>)
    requires
        counts_lines(d),
        forall|i: int| 0 <= i < files.len() ==> is_line(#[trigger] files[i]),
    ensures
        counts_lines(with_files(f, d, files)),
    decreases files.len(),
{
    if files.len() > 0 && crate::repo_map::file_fits(f, d, files[0]) {
        lemma_add_line(d, files[0], d.named);
        let rest = files.drop_first();
        assert forall|i: int| 0 <= i < rest.len() implies is_line(#[trigger] rest[i]) by {
            assert(rest[i] == files[i + 1]);
        }
        lemma_files_counted(
            f,
            Draft { text: d.text + files[0], lines: d.lines + 1, named: d.named },
            rest,
        );
    }
}

/// The parts of a map without line feeds in them.
spec fn is_plain(m: MapView) -> bool {
    &&& is_one_lined(m.symbols)
    &&& forall|i: int| 0 <= i < m.known.len() ==> !(#[trigger] m.known[i]).contains('\n')
}

proof fn lemma_ordered_one_line(m: MapView, i: int)
    requires
        is_plain(m),
        0 <= i < m.ordered().len(),
    ensures
        !m.ordered()[i].contains('\n'),
{
    crate::rank::lemma_order(m.keys());
    let p = crate::rank::order_of(m.keys());
    assert(0 <= p[i] < m.known.len());
    assert(!m.known[p[i]].contains('\n'));
}

proof fn lemma_file_lines(m: MapView, r: Seq<char>, k: int)
    requires
        is_plain(m),
        0 <= k < m.file_lines(r).len(),
    ensures
        is_line(m.file_lines(r)[k]),
{
    let own = crate::repo_map::residents(m.symbols, m.regions, r);
    lemma_kept_one_lined(
        m.symbols,
        |n: Node| crate::regions::region_of(n.path@, m.regions) == r,
    );
    let paths = crate::repo_map::node_paths(own);
    assert forall|i: int| 0 <= i < paths.len() implies !(#[trigger] paths[i]).contains('\n') by {
        assert(!own[i].path@.contains('\n'));
    }
    lemma_sorted_one_line(paths);
    let files = m.files(r);
    let keys = crate::repo_map::volume_keys(m.symbols, files);
    crate::rank::lemma_order(keys);
    let p = crate::rank::order_of(keys);
    assert(0 <= p[k] < files.len());
    lemma_file_line(m.symbols, files[p[k]]);
}

proof fn lemma_regions_counted(m: MapView, f: Frame, d: Draft, i: int)
    requires
        is_plain(m),
        0 <= i,
        counts_lines(d),
    ensures
        counts_lines(with_regions(m, f, d, i)),
    decreases m.ordered().len() - i,
{
    let all = m.ordered();
    if i < all.len() && crate::repo_map::name_fits(f, d, m.name_line(all[i])) {
        lemma_ordered_one_line(m, i);
        lemma_name_line(m, all[i]);
        lemma_add_line(d, m.name_line(all[i]), d.named + 1);
        let named = Draft {
            text: d.text + m.name_line(all[i]),
            lines: d.lines + 1,
            named: d.named + 1,
        };
        if i >= crate::repo_map::DETAIL_COMPONENTS {
            lemma_regions_counted(m, f, named, i + 1);
        } else {
            let files = m.file_lines(all[i]);
            assert forall|k: int| 0 <= k < files.len() implies is_line(#[trigger] files[k]) by {
                lemma_file_lines(m, all[i], k);
            }
            lemma_files_counted(f, named, files);
            lemma_regions_counted(m, f, with_files(f, named, files), i + 1);
        }
    }
}

proof fn lemma_literal_line(s: Seq<char>)
    requires
        s.len() > 0,
        s.last() == '\n',
        forall|i: int| 0 <= i < s.len() - 1 ==> #[trigger] s[i] != '\n',
    ensures
        is_line(s),
{
    assert forall|i: int| 0 <= i < s.drop_last().len() implies s.drop_last()[i] != '\n' by {
        assert(s.drop_last()[i] == s[i]);
    }
    lemma_no_breaks(s.drop_last());
}

proof fn lemma_header_lines(m: MapView)
    ensures
        is_ended(m.header()),
        breaks(m.header()) == m.header_lines(),
{
    let flat =
        "Repo map, components ranked by code volume (symbols); no cross-component dependencies detected.\n"@;
    let ranked =
        "Repo map, components ranked by dependents (most load-bearing first); symbols = code volume.\n"@;
    let note =
        "Note: semantic analysis (Phase B) has not run, dependents are from import structure only; call-graph data is unavailable. Commit to trigger Phase B.\n"@;
    reveal_strlit(
        "Repo map, components ranked by code volume (symbols); no cross-component dependencies detected.\n",
    );
    reveal_strlit(
        "Repo map, components ranked by dependents (most load-bearing first); symbols = code volume.\n",
    );
    reveal_strlit(
        "Note: semantic analysis (Phase B) has not run, dependents are from import structure only; call-graph data is unavailable. Commit to trigger Phase B.\n",
    );
    lemma_literal_line(flat);
    lemma_literal_line(ranked);
    lemma_literal_line(note);
    lemma_breaks_concat(
        if m.flat() {
            flat
        } else {
            ranked
        },
        note,
    );
}

proof fn lemma_footer(m: MapView, named: nat)
    requires
        named < m.ordered().len() <= u64::MAX,
    ensures
        is_line(footer(m, named)),
        crate::width::blen(footer(m, named)) <= 256,
{
    reveal_strlit("+");
    reveal_strlit(" more components (of ");
    reveal_strlit(")\n");
    reveal_strlit(")");
    reveal_strlit("\n");
    let total = m.ordered().len();
    let a = crate::text::dec((total - named) as nat);
    let b = crate::text::dec(total);
    assert(u64::MAX < tens(20)) by {
        reveal_with_fuel(tens, 21);
    }
    lemma_dec_length((total - named) as nat, 20);
    lemma_dec_length(total, 20);
    lemma_dec_one_line((total - named) as nat);
    lemma_dec_one_line(total);
    let t = footer(m, named);
    let x = "+"@ + a;
    let y = x + " more components (of "@;
    let z = y + b;
    lemma_concat_one_line("+"@, a);
    lemma_concat_one_line(x, " more components (of "@);
    lemma_concat_one_line(y, b);
    lemma_concat_one_line(z, ")"@);
    lemma_line(z + ")"@);
    assert(t =~= z + ")"@ + "\n"@);
    crate::width::lemma_blen_ascii(t);
}

proof fn lemma_plain(store: Store)
    requires
        is_one_lined(store.nodes@),
    ensures
        is_plain(map_view(store)),
        map_view(store).ordered().len() <= u64::MAX,
{
    let m = map_view(store);
    lemma_symbols_one_lined(store.nodes@);
    let homes = crate::repo_map::homes(m.symbols, m.regions);
    assert forall|i: int| 0 <= i < homes.len() implies !(#[trigger] homes[i]).contains('\n') by {
        assert(!m.symbols[i].path@.contains('\n'));
        lemma_region_one_line(m.symbols[i].path@, m.regions);
    }
    lemma_sorted_one_line(homes);
    crate::rank::lemma_order(m.keys());
    assert(store.nodes@.len() == store.nodes.len());
}

proof fn lemma_symbols_one_lined(nodes: Seq<Node>)
    requires
        is_one_lined(nodes),
    ensures
        is_one_lined(crate::repo_map::symbols(nodes)),
        crate::repo_map::symbols(nodes).len() <= nodes.len(),
{
    let p = |n: Node| crate::repo_map::is_symbol(n);
    assert(crate::repo_map::symbols(nodes) == crate::store::kept(nodes, p));
    lemma_kept_one_lined(nodes, p);
    crate::store::lemma_kept(nodes, p);
}

// ---------------------------------------------------------------- laws

/// The bytes of a map that names no component, with `reserve` bytes in front of each line.
pub open spec fn bare_bytes(m: MapView, reserve: nat) -> nat {
    crate::width::blen(m.header()) + crate::width::blen(footer(m, 0)) + (m.header_lines() + 1)
        * reserve
}

/// The map of a repository fits the response, its footer and what is put in front of each line
/// included, where no path and no signature holds a line feed. Left out is what cannot fit: a map that
/// names no component because what is put in front of a line leaves no room even for header and footer.
pub proof fn law_map_fits_the_response(store: Store, reserve: nat)
    requires
        !store.scan_failed,
        map_view(store).symbols.len() > 0,
        is_one_lined(store.nodes@),
        body(map_view(store), reserve).lines > 0 || bare_bytes(map_view(store), reserve)
            <= SCALAR_LIMIT,
    ensures
        crate::width::blen(repo_map(store, reserve)) + crate::split::lines(
            repo_map(store, reserve),
        ).len() * reserve <= SCALAR_LIMIT,
{
    let m = map_view(store);
    let d = body(m, reserve);
    let foot = footer(m, d.named);
    let t = repo_map(store, reserve);
    lemma_plain(store);
    if store.nodes@.len() == 0 {
        lemma_symbols_one_lined(store.nodes@);
    }
    crate::repo_map::law_map_stays_within_its_cap(m, reserve);
    lemma_header_lines(m);
    let start = Draft { text: Seq::<char>::empty(), lines: 0, named: 0 };
    lemma_regions_counted(m, frame(m, reserve), start, 0);
    lemma_breaks_concat(m.header(), d.text);
    lemma_breaks_concat(m.header() + d.text, foot);
    crate::width::lemma_blen_concat(m.header(), d.text);
    crate::width::lemma_blen_concat(m.header() + d.text, foot);
    if d.named < m.ordered().len() {
        lemma_footer(m, d.named);
    } else {
        crate::width::lemma_blen_ascii(foot);
    }
    assert(is_ended(t));
    lemma_ended_lines(t);
    let n = breaks(t);
    assert(n <= m.header_lines() + d.lines + 1);
    assert(n * reserve <= (m.header_lines() + d.lines + 1) * reserve) by (nonlinear_arith)
        requires
            n <= m.header_lines() + d.lines + 1,
            reserve >= 0,
    ;
    if d.lines == 0 {
        assert(d.text.len() == 0);
        crate::width::lemma_blen_ascii(d.text);
    }
}

/// The bytes of some texts together.
spec fn bytes_of(v: Seq<Seq<char>>) -> nat
    decreases v.len(),
{
    if v.len() == 0 {
        0
    } else {
        bytes_of(v.drop_last()) + crate::width::blen(v.last())
    }
}

proof fn lemma_join_bytes(v: Seq<Seq<char>>)
    ensures
        crate::width::blen(crate::text::join(v, "\n"@)) <= bytes_of(v) + (if v.len() > 0 {
            (v.len() - 1) as nat
        } else {
            0
        }),
    decreases v.len(),
{
    reveal_strlit("\n");
    crate::width::lemma_blen_ascii("\n"@);
    if v.len() == 0 {
        crate::width::lemma_blen_ascii(Seq::empty());
    } else {
        lemma_join_bytes(v.drop_last());
        let p = crate::text::join(v.drop_last(), "\n"@);
        crate::width::lemma_blen_concat(p, "\n"@);
        crate::width::lemma_blen_concat(p + "\n"@, v.last());
        if v.len() == 1 {
            assert(v[0] == v.last());
        }
    }
}

proof fn lemma_split_bytes(s: Seq<char>)
    ensures
        bytes_of(crate::split::split(s, '\n', '\n')) + breaks(s) <= crate::width::blen(s),
        crate::split::split(s, '\n', '\n').len() == breaks(s) + 1,
    decreases s.len(),
{
    let p = crate::split::split(s, '\n', '\n');
    lemma_split_breaks(s);
    crate::width::lemma_blen_ascii(Seq::empty());
    if s.len() == 0 {
        assert(p.drop_last() =~= Seq::<Seq<char>>::empty());
        assert(bytes_of(p) == bytes_of(p.drop_last()) + crate::width::blen(p.last()));
    } else {
        let r = crate::split::split(s.drop_last(), '\n', '\n');
        lemma_split_bytes(s.drop_last());
        lemma_split_breaks(s.drop_last());
        assert(s.drop_last().push(s.last()) =~= s);
        crate::width::lemma_blen_push(s.drop_last(), s.last());
        if s.last() == '\n' {
            assert(p.drop_last() =~= r);
            assert(bytes_of(p) == bytes_of(r) + crate::width::blen(p.last()));
        } else {
            assert(p.drop_last() =~= r.drop_last());
            assert(bytes_of(p) == bytes_of(r.drop_last()) + crate::width::blen(p.last()));
            crate::width::lemma_blen_push(r.last(), s.last());
        }
    }
}

/// Texts that are no longer than others, one by one, are no longer together.
proof fn lemma_bytes_within(v: Seq<Seq<char>>, w: Seq<Seq<char>>, more: nat)
    requires
        v.len() <= w.len(),
        forall|i: int|
            0 <= i < v.len() ==> crate::width::blen(#[trigger] v[i]) <= crate::width::blen(w[i])
                + more,
    ensures
        bytes_of(v) <= bytes_of(w) + v.len() * more,
    decreases w.len(),
{
    if w.len() > 0 {
        if v.len() < w.len() {
            lemma_bytes_within(v, w.drop_last(), more);
        } else {
            lemma_bytes_within(v.drop_last(), w.drop_last(), more);
            assert(v.len() * more == (v.len() - 1) * more + more) by (nonlinear_arith);
        }
    }
}

/// Marking the lines of a text adds the bytes of one mark per line at most.
pub proof fn law_marks_add_their_bytes(name: Seq<char>, s: Seq<char>)
    ensures
        crate::width::blen(crate::global::marked(name, s)) <= crate::width::blen(s)
            + crate::split::lines(s).len() * (crate::width::blen(name) + 3),
{
    let p = crate::split::split(s, '\n', '\n');
    let ls = crate::split::lines(s);
    let more = crate::width::blen(name) + 3;
    let v = Seq::new(ls.len(), |i: int| crate::global::marked_line(name, ls[i]));
    lemma_split_bytes(s);
    reveal_strlit("[");
    reveal_strlit("] ");
    crate::width::lemma_blen_ascii("["@);
    crate::width::lemma_blen_ascii("] "@);
    assert forall|i: int| 0 <= i < v.len() implies crate::width::blen(#[trigger] v[i])
        <= crate::width::blen(p[i]) + more by {
        crate::width::lemma_blen_concat("["@, name);
        crate::width::lemma_blen_concat("["@ + name, "] "@);
        crate::width::lemma_blen_concat("["@ + name + "] "@, ls[i]);
        let l = p[i];
        if ls[i] != l {
            assert(l.drop_last().push(l.last()) =~= l);
            crate::width::lemma_blen_push(l.drop_last(), l.last());
        }
    }
    lemma_bytes_within(v, p, more);
    lemma_join_bytes(v);
}

/// The map of one of several repositories fits the response with its name in front of each line, where
/// no path and no signature holds a line feed. Left out is what cannot fit: a map that names no
/// component because the name leaves no room even for header and footer.
pub proof fn law_marked_map_fits_the_response(store: Store, name: Seq<char>)
    requires
        !store.scan_failed,
        map_view(store).symbols.len() > 0,
        is_one_lined(store.nodes@),
        body(map_view(store), crate::repo_map::mark_bytes(name)).lines > 0 || bare_bytes(
            map_view(store),
            crate::repo_map::mark_bytes(name),
        ) <= SCALAR_LIMIT,
    ensures
        crate::width::blen(
            crate::global::attributed(
                name,
                repo_map(store, crate::repo_map::mark_bytes(name)),
                false,
            ),
        ) <= SCALAR_LIMIT,
{
    let mark = crate::repo_map::mark_bytes(name);
    let m = map_view(store);
    let t = repo_map(store, mark);
    law_map_fits_the_response(store, mark);
    crate::repo_map::law_map_stays_within_its_cap(m, mark);
    law_marks_add_their_bytes(name, t);
    crate::width::lemma_blen_ascii(Seq::empty());
    let n = m.header_lines() + body(m, mark).lines + 1;
    assert(n * mark >= mark) by (nonlinear_arith)
        requires
            n >= 1,
            mark >= 0,
    ;
    assert((m.header_lines() + 1) * mark >= mark) by (nonlinear_arith)
        requires
            m.header_lines() + 1 >= 1,
            mark >= 0,
    ;
    assert(mark <= SCALAR_LIMIT);
    if t.len() == 0 {
        assert(t =~= Seq::<char>::empty());
    }
}

} // verus!
