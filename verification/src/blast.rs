//! The files that a change to a file may affect.

use vstd::prelude::*;

use crate::global::{attribute, collect_global, Repo};
use crate::notes::append_read_notes;
use crate::radius::{affected_files, affected_nodes, radius_of, seed_files, MAX_BLAST_RADIUS_NODES};
use crate::sanitize::{is_valid_arg, sanitize_for_mcp};
use crate::split::{alnum_runs_of, split_on};
use crate::store::{opt_view, Edge, EdgeKind, Import, Node, Store};
use crate::text::{chars_of, join_strings, last_char, list_has, same, string_of, strip_prefix};

verus! {

/// Which edges are followed.
#[derive(Debug, Clone, Copy, PartialEq, Eq, Structural)]
pub enum AnalysisMode {
    /// Definitions, calls, dependencies and resolved imports.
    TreeSitter,
    /// Only calls that the semantic pass found. Where it found none in the file's language, nothing is
    /// affected.
    Semantic,
}

impl Default for AnalysisMode {
    fn default() -> (r: Self)
        ensures
            r == AnalysisMode::TreeSitter,
    {
        AnalysisMode::TreeSitter
    }
}

// ---------------------------------------------------------------- import hints

/// The named components of a path: empty ones and `.` are left out.
pub open spec fn components(parts: Seq<Seq<char>>) -> Seq<Seq<char>>
    decreases parts.len(),
{
    if parts.len() == 0 {
        Seq::empty()
    } else if parts.last().len() == 0 || parts.last() == "."@ {
        components(parts.drop_last())
    } else {
        components(parts.drop_last()).push(parts.last())
    }
}

/// A file name without its extension; a name that only starts with a dot has none.
pub open spec fn stem(name: Seq<char>) -> Seq<char> {
    match crate::text::last_of(name, '.', '.') {
        Some(i) => if i == 0 {
            name
        } else {
            name.take(i)
        },
        None => name,
    }
}

/// What an import of a file may be named by: the name of its directory, and its own name without
/// extension.
pub open spec fn hints(file: Seq<char>) -> Seq<Seq<char>> {
    let c = components(crate::split::split(file, '/', '\\'));
    let dir = if c.len() >= 2 && c[c.len() - 2] != ".."@ {
        seq![c[c.len() - 2]]
    } else {
        Seq::empty()
    };
    if c.len() >= 1 && c.last() != ".."@ && !dir.contains(stem(c.last())) {
        dir.push(stem(c.last()))
    } else {
        dir
    }
}

/// The named components of a path that was split at its separators.
pub fn components_of(parts: &Vec<String>) -> (r: Vec<String>)
    ensures
        crate::text::views(r@) == components(crate::text::views(parts@)),
{
    let mut r: Vec<String> = Vec::new();
    let ghost all = crate::text::views(parts@);
    let mut i: usize = 0;
    assert(crate::text::views(r@) =~= components(all.take(0)));
    while i < parts.len()
        invariant
            all == crate::text::views(parts@),
            i <= parts@.len(),
            crate::text::views(r@) == components(all.take(i as int)),
        decreases parts@.len() - i,
    {
        assert(all.take(i + 1).drop_last() =~= all.take(i as int));
        assert(all.take(i + 1).last() == parts@[i as int]@);
        if !parts[i].as_str().is_empty() && !same(parts[i].as_str(), ".") {
            proof {
                crate::text::lemma_views_push(r@, parts@[i as int]);
            }
            r.push(parts[i].clone());
        }
        i += 1;
    }
    assert(all.take(i as int) =~= all);
    r
}

/// A file name without its extension.
pub fn stem_of(name: &str) -> (r: String)
    ensures
        r@ == stem(name@),
{
    let cs = chars_of(name);
    match last_char(&cs, '.', '.') {
        Some(i) => if i == 0 {
            name.to_owned()
        } else {
            let s = string_of(&cs, 0, i);
            assert(cs@.subrange(0, i as int) =~= name@.take(i as int));
            s
        },
        None => name.to_owned(),
    }
}

/// The search hints of a file: its directory's name and its own name without extension.
pub fn blast_radius_hints(file: &str) -> (r: Vec<String>)
    ensures
        crate::text::views(r@) == hints(file@),
{
    let parts = split_on(file, '/', '\\');
    let c = components_of(&parts);
    let ghost cv = components(crate::split::split(file@, '/', '\\'));
    assert(cv.len() == c@.len());
    let mut r: Vec<String> = Vec::new();
    assert(crate::text::views(r@) =~= Seq::<Seq<char>>::empty());
    if c.len() >= 2 && !same(c[c.len() - 2].as_str(), "..") {
        assert(cv[cv.len() - 2] == c@[c@.len() - 2]@);
        r.push(c[c.len() - 2].clone());
        assert(crate::text::views(r@) =~= seq![cv[cv.len() - 2]]);
    } else if c.len() >= 2 {
        assert(cv[cv.len() - 2] == c@[c@.len() - 2]@);
    }
    if c.len() >= 1 {
        assert(cv.last() == c@.last()@);
        if !same(c[c.len() - 1].as_str(), "..") {
            let s = stem_of(c[c.len() - 1].as_str());
            if !list_has(&r, s.as_str()) {
                proof {
                    crate::text::lemma_views_push(r@, s);
                }
                r.push(s);
            }
        }
    }
    r
}

/// The words of an import signature.
pub open spec fn tokens(signature: Seq<char>) -> Seq<Seq<char>> {
    match crate::text::after_prefix(signature, "import:"@) {
        Some(rest) => crate::split::alnum_runs(rest),
        None => crate::split::alnum_runs(signature),
    }
}

/// The words of an import signature.
pub fn import_sig_tokens(signature: &str) -> (r: Vec<String>)
    ensures
        crate::text::views(r@) == tokens(signature@),
{
    match strip_prefix(signature, "import:") {
        Some(rest) => alnum_runs_of(rest),
        None => alnum_runs_of(signature),
    }
}

/// The two lists share an entry.
pub open spec fn share(a: Seq<Seq<char>>, b: Seq<Seq<char>>) -> bool {
    exists|i: int| 0 <= i < a.len() && b.contains(#[trigger] a[i])
}

/// Some hint shares a word with the signature.
pub open spec fn is_candidate(hints: Seq<Seq<char>>, signature: Seq<char>) -> bool {
    exists|i: int| 0 <= i < hints.len() && share(tokens(#[trigger] hints[i]), tokens(signature))
}

/// The import brings in the file: their words meet, and the language's import rules resolve it.
pub open spec fn bridges(imp: Import, file: Seq<char>) -> bool {
    is_candidate(hints(file), imp.signature@) && crate::text::views(imp.resolves_to@).contains(file)
}

/// The nodes of the imports that hold a word and that the import rules resolve to the file, in order.
pub open spec fn imports_with(imports: Seq<Import>, file: Seq<char>, word: Seq<char>) -> Seq<u64>
    decreases imports.len(),
{
    if imports.len() == 0 {
        Seq::empty()
    } else {
        let rest = imports_with(imports.drop_last(), file, word);
        let imp = imports.last();
        if tokens(imp.signature@).contains(word) && crate::text::views(imp.resolves_to@).contains(
            file,
        ) {
            rest.push(imp.id)
        } else {
            rest
        }
    }
}

/// The same for several words, one after the other.
pub open spec fn imports_for(imports: Seq<Import>, file: Seq<char>, words: Seq<Seq<char>>) -> Seq<u64>
    decreases words.len(),
{
    if words.len() == 0 {
        Seq::empty()
    } else {
        imports_for(imports, file, words.drop_last()) + imports_with(imports, file, words.last())
    }
}

/// The words of the hints.
pub open spec fn hint_words(hints: Seq<Seq<char>>) -> Seq<Seq<char>>
    decreases hints.len(),
{
    if hints.len() == 0 {
        Seq::empty()
    } else {
        hint_words(hints.drop_last()) + tokens(hints.last())
    }
}

/// The nodes of the imports that bring in a file, in the order in which the words of its hints lead to
/// them. One that several words lead to occurs for each of them.
pub open spec fn importers(store: Store, file: Seq<char>) -> Seq<u64> {
    imports_for(store.imports@, file, hint_words(hints(file)))
}

proof fn lemma_imports_with(imports: Seq<Import>, file: Seq<char>, word: Seq<char>, id: u64)
    ensures
        imports_with(imports, file, word).contains(id) <==> exists|k: int|
            0 <= k < imports.len() && (#[trigger] imports[k]).id == id && tokens(
                imports[k].signature@,
            ).contains(word) && crate::text::views(imports[k].resolves_to@).contains(file),
    decreases imports.len(),
{
    if imports.len() > 0 {
        let rest = imports.drop_last();
        let imp = imports.last();
        lemma_imports_with(rest, file, word, id);
        let r = imports_with(rest, file, word);
        crate::store::lemma_push_contains(r, imp.id, id);
        assert forall|k: int| 0 <= k < rest.len() implies rest[k] == imports[k] by {}
        if r.contains(id) {
            let k = choose|k: int|
                0 <= k < rest.len() && (#[trigger] rest[k]).id == id && tokens(
                    rest[k].signature@,
                ).contains(word) && crate::text::views(rest[k].resolves_to@).contains(file);
            assert(imports[k].id == id);
        }
        if imports_with(imports, file, word).contains(id) && !r.contains(id) {
            assert(imports[imports.len() - 1].id == id);
        }
        if exists|k: int|
            0 <= k < imports.len() && (#[trigger] imports[k]).id == id && tokens(
                imports[k].signature@,
            ).contains(word) && crate::text::views(imports[k].resolves_to@).contains(file) {
            let k = choose|k: int|
                0 <= k < imports.len() && (#[trigger] imports[k]).id == id && tokens(
                    imports[k].signature@,
                ).contains(word) && crate::text::views(imports[k].resolves_to@).contains(file);
            if k < rest.len() {
                assert(rest[k].id == id);
            }
        }
    }
}

proof fn lemma_imports_for(imports: Seq<Import>, file: Seq<char>, words: Seq<Seq<char>>, id: u64)
    ensures
        imports_for(imports, file, words).contains(id) <==> exists|i: int|
            0 <= i < words.len() && imports_with(imports, file, #[trigger] words[i]).contains(id),
    decreases words.len(),
{
    if words.len() > 0 {
        let rest = words.drop_last();
        lemma_imports_for(imports, file, rest, id);
        let a = imports_for(imports, file, rest);
        let b = imports_with(imports, file, words.last());
        lemma_concat_contains(a, b, id);
        assert forall|k: int| 0 <= k < rest.len() implies rest[k] == words[k] by {}
        if a.contains(id) {
            let i = choose|i: int|
                0 <= i < rest.len() && imports_with(imports, file, #[trigger] rest[i]).contains(id);
            assert(imports_with(imports, file, words[i]).contains(id));
        }
        if b.contains(id) {
            assert(imports_with(imports, file, words[words.len() - 1]).contains(id));
        }
        if exists|i: int|
            0 <= i < words.len() && imports_with(imports, file, #[trigger] words[i]).contains(id) {
            let i = choose|i: int|
                0 <= i < words.len() && imports_with(imports, file, #[trigger] words[i]).contains(
                    id,
                );
            if i < rest.len() {
                assert(imports_with(imports, file, rest[i]).contains(id));
            }
        }
    }
}

proof fn lemma_concat_contains<A>(a: Seq<A>, b: Seq<A>, x: A)
    ensures
        (a + b).contains(x) <==> a.contains(x) || b.contains(x),
{
    if a.contains(x) {
        let i = choose|i: int| 0 <= i < a.len() && a[i] == x;
        assert((a + b)[i] == x);
    }
    if b.contains(x) {
        let i = choose|i: int| 0 <= i < b.len() && b[i] == x;
        assert((a + b)[a.len() + i] == x);
    }
    if (a + b).contains(x) {
        let i = choose|i: int| 0 <= i < (a + b).len() && (a + b)[i] == x;
        if i < a.len() {
            assert(a[i] == x);
        } else {
            assert(b[i - a.len()] == x);
        }
    }
}

proof fn lemma_hint_words(hints: Seq<Seq<char>>, word: Seq<char>)
    ensures
        hint_words(hints).contains(word) <==> exists|i: int|
            0 <= i < hints.len() && tokens(#[trigger] hints[i]).contains(word),
    decreases hints.len(),
{
    if hints.len() > 0 {
        let rest = hints.drop_last();
        lemma_hint_words(rest, word);
        lemma_concat_contains(hint_words(rest), tokens(hints.last()), word);
        assert forall|k: int| 0 <= k < rest.len() implies rest[k] == hints[k] by {}
        if hint_words(rest).contains(word) {
            let i = choose|i: int| 0 <= i < rest.len() && tokens(#[trigger] rest[i]).contains(word);
            assert(tokens(hints[i]).contains(word));
        }
        if tokens(hints.last()).contains(word) {
            assert(tokens(hints[hints.len() - 1]).contains(word));
        }
        if exists|i: int| 0 <= i < hints.len() && tokens(#[trigger] hints[i]).contains(word) {
            let i = choose|i: int|
                0 <= i < hints.len() && tokens(#[trigger] hints[i]).contains(word);
            if i < rest.len() {
                assert(tokens(rest[i]).contains(word));
            }
        }
    }
}

/// The importers of a file are the imports that bring it in.
pub proof fn lemma_importers(store: Store, file: Seq<char>, id: u64)
    ensures
        importers(store, file).contains(id) <==> exists|k: int|
            0 <= k < store.imports@.len() && bridges(#[trigger] store.imports@[k], file)
                && store.imports@[k].id == id,
{
    let imports = store.imports@;
    let hs = hints(file);
    let words = hint_words(hs);
    lemma_imports_for(imports, file, words, id);
    if importers(store, file).contains(id) {
        let i = choose|i: int|
            0 <= i < words.len() && imports_with(imports, file, #[trigger] words[i]).contains(id);
        lemma_imports_with(imports, file, words[i], id);
        let k = choose|k: int|
            0 <= k < imports.len() && (#[trigger] imports[k]).id == id && tokens(
                imports[k].signature@,
            ).contains(words[i]) && crate::text::views(imports[k].resolves_to@).contains(file);
        lemma_hint_words(hs, words[i]);
        assert(words.contains(words[i]));
        let h = choose|h: int| 0 <= h < hs.len() && tokens(#[trigger] hs[h]).contains(words[i]);
        let t = tokens(hs[h]);
        let j = choose|j: int| 0 <= j < t.len() && t[j] == words[i];
        assert(tokens(imports[k].signature@).contains(t[j]));
        assert(share(tokens(hs[h]), tokens(imports[k].signature@)));
        assert(bridges(imports[k], file));
    }
    if exists|k: int|
        0 <= k < imports.len() && bridges(#[trigger] imports[k], file) && imports[k].id == id {
        let k = choose|k: int|
            0 <= k < imports.len() && bridges(#[trigger] imports[k], file) && imports[k].id == id;
        let own = tokens(imports[k].signature@);
        let h = choose|h: int| 0 <= h < hs.len() && share(tokens(#[trigger] hs[h]), own);
        let t = tokens(hs[h]);
        let j = choose|j: int| 0 <= j < t.len() && own.contains(#[trigger] t[j]);
        lemma_hint_words(hs, t[j]);
        assert(tokens(hs[h]).contains(t[j]));
        assert(words.contains(t[j]));
        let i = choose|i: int| 0 <= i < words.len() && words[i] == t[j];
        lemma_imports_with(imports, file, words[i], id);
        assert(imports_with(imports, file, words[i]).contains(id));
    }
}

fn push_imports_with(store: &Store, file: &str, word: &str, out: &mut Vec<u64>)
    ensures
        final(out)@ == old(out)@ + imports_with(store.imports@, file@, word@),
{
    let ghost was = out@;
    let mut k: usize = 0;
    assert(was + imports_with(store.imports@.take(0), file@, word@) =~= was);
    while k < store.imports.len()
        invariant
            k <= store.imports@.len(),
            out@ == was + imports_with(store.imports@.take(k as int), file@, word@),
        decreases store.imports@.len() - k,
    {
        assert(store.imports@.take(k + 1).drop_last() =~= store.imports@.take(k as int));
        let imp = &store.imports[k];
        let ghost rest = imports_with(store.imports@.take(k as int), file@, word@);
        if list_has(&imp.resolves_to, file) && list_has(
            &import_sig_tokens(imp.signature.as_str()),
            word,
        ) {
            out.push(imp.id);
            assert((was + rest).push(imp.id) =~= was + rest.push(imp.id));
        }
        k += 1;
    }
    assert(store.imports@.take(k as int) =~= store.imports@);
}

/// The nodes of the imports that bring in a file.
pub(crate) fn importers_of(store: &Store, file: &str) -> (r: Vec<u64>)
    ensures
        r@ == importers(*store, file@),
{
    let hs = blast_radius_hints(file);
    let ghost hv = hints(file@);
    let mut words: Vec<String> = Vec::new();
    let mut i: usize = 0;
    assert(crate::text::views(words@) =~= hint_words(hv.take(0)));
    while i < hs.len()
        invariant
            hv == crate::text::views(hs@),
            i <= hs@.len(),
            crate::text::views(words@) == hint_words(hv.take(i as int)),
        decreases hs@.len() - i,
    {
        assert(hv.take(i + 1).drop_last() =~= hv.take(i as int));
        assert(hv.take(i + 1).last() == hs@[i as int]@);
        let mut own = import_sig_tokens(hs[i].as_str());
        let ghost (a, b) = (words@, own@);
        words.append(&mut own);
        assert(crate::text::views(a + b) =~= crate::text::views(a) + crate::text::views(b));
        i += 1;
    }
    assert(hv.take(i as int) =~= hv);
    let ghost wv = crate::text::views(words@);
    let mut r: Vec<u64> = Vec::new();
    let mut k: usize = 0;
    assert(r@ =~= imports_for(store.imports@, file@, wv.take(0)));
    while k < words.len()
        invariant
            wv == crate::text::views(words@),
            k <= words@.len(),
            r@ == imports_for(store.imports@, file@, wv.take(k as int)),
        decreases words@.len() - k,
    {
        assert(wv.take(k + 1).drop_last() =~= wv.take(k as int));
        assert(wv.take(k + 1).last() == words@[k as int]@);
        push_imports_with(store, file, words[k].as_str(), &mut r);
        k += 1;
    }
    assert(wv.take(k as int) =~= wv);
    r
}

// ---------------------------------------------------------------- the answer

/// The nodes that a file name denotes; none where the search failed.
pub open spec fn seeds(store: Store, file: Seq<char>) -> Seq<Node> {
    match store.name_hits(file) {
        Some(v) => v,
        None => Seq::empty(),
    }
}

/// A node in a language.
pub open spec fn is_in(store: Store, id: u64, language: Seq<char>) -> bool {
    match store.node(id) {
        Some(n) => n.language@ == language,
        None => false,
    }
}

/// An edge is a call from or to a node in a language.
pub open spec fn is_call_in(store: Store, e: Edge, language: Seq<char>) -> bool {
    e.kind == EdgeKind::RefCall && (is_in(store, e.src, language) || is_in(store, e.dst, language))
}

/// The semantic pass found calls in a language: the language is listed with them, or one is recorded.
pub open spec fn has_calls_in(store: Store, language: Seq<char>) -> bool {
    crate::text::views(store.call_languages@).contains(language) || exists|i: int|
        0 <= i < store.edges@.len() && is_call_in(store, #[trigger] store.edges@[i], language)
}

/// Only calls are followed, and none are known in the language of any of the nodes.
pub open spec fn is_blind(store: Store, mode: AnalysisMode, hits: Seq<Node>) -> bool {
    mode == AnalysisMode::Semantic && forall|i: int|
        0 <= i < hits.len() ==> !has_calls_in(store, (#[trigger] hits[i]).language@)
}

/// The files affected by a change to a file, one per line, in order. Nothing where only calls are
/// followed and none are known in the file's language.
pub open spec fn blast_text(store: Store, file: Seq<char>, mode: AnalysisMode) -> Seq<char> {
    let hits = seeds(store, file);
    if is_blind(store, mode, hits) {
        Seq::empty()
    } else {
        crate::text::join(crate::order::sorted_of(crate::radius::radius(store, mode, hits)), "\n"@)
    }
}

fn node_is_in(store: &Store, id: u64, language: &str) -> (r: bool)
    ensures
        r == is_in(*store, id, language@),
{
    match store.get_node(id) {
        Some(n) => same(n.language.as_str(), language),
        None => false,
    }
}

fn knows_calls_in(store: &Store, language: &str) -> (r: bool)
    ensures
        r == has_calls_in(*store, language@),
{
    if list_has(&store.call_languages, language) {
        return true;
    }
    let mut i: usize = 0;
    while i < store.edges.len()
        invariant
            i <= store.edges@.len(),
            forall|j: int|
                0 <= j < i ==> !is_call_in(*store, #[trigger] store.edges@[j], language@),
        decreases store.edges@.len() - i,
    {
        let e = &store.edges[i];
        if e.kind == EdgeKind::RefCall && (node_is_in(store, e.src, language) || node_is_in(
            store,
            e.dst,
            language,
        )) {
            assert(is_call_in(*store, store.edges@[i as int], language@));
            return true;
        }
        i += 1;
    }
    false
}

fn sees_nothing(store: &Store, mode: AnalysisMode, hits: &Vec<Node>) -> (r: bool)
    ensures
        r == is_blind(*store, mode, hits@),
{
    if mode != AnalysisMode::Semantic {
        return false;
    }
    let mut i: usize = 0;
    while i < hits.len()
        invariant
            i <= hits@.len(),
            forall|j: int|
                0 <= j < i ==> !has_calls_in(*store, (#[trigger] hits@[j]).language@),
        decreases hits@.len() - i,
    {
        if knows_calls_in(store, hits[i].language.as_str()) {
            return false;
        }
        i += 1;
    }
    true
}

/// The files affected by a change to a file, one per line: its own, and those of everything that
/// reaches it against the edges or through imports. Nothing where only calls are followed and none
/// are known in the file's language.
pub fn get_blast_radius_raw(store: &Store, file: &str, mode: AnalysisMode) -> (r: String)
    ensures
        r@ == blast_text(*store, file@, mode),
{
    let hits: Vec<Node> = match store.search_nodes_by_name(file) {
        Some(v) => v,
        None => Vec::new(),
    };
    assert(hits@ =~= seeds(*store, file@));
    if sees_nothing(store, mode, &hits) {
        return String::new();
    }
    let files = radius_of(store, mode, &hits);
    join_strings(&files, "\n")
}

// ---------------------------------------------------------------- the tool

/// The answer to a request for the files affected by a change to a file.
pub open spec fn blast_answer(
    store: Store,
    file: Seq<char>,
    mode: AnalysisMode,
    head: Option<Seq<char>>,
) -> Seq<char> {
    if crate::sanitize::arg_ok(file) {
        crate::notes::read_notes(
            store,
            crate::sanitize::scalar(blast_text(store, file, mode)),
            head,
        )
    } else {
        Seq::empty()
    }
}

/// The files affected by a change to a file. `head` is the commit of the caller's checkout, where it
/// is known.
pub fn get_blast_radius(store: &Store, file: &str, mode: AnalysisMode, head: Option<&str>) -> (r:
    String)
    ensures
        r@ == blast_answer(*store, file@, mode, opt_view(head)),
{
    if !is_valid_arg(file) {
        return String::new();
    }
    let raw = get_blast_radius_raw(store, file, mode);
    append_read_notes(store, sanitize_for_mcp(raw.as_str()), head)
}

/// The part of one repository in an answer over several.
pub open spec fn blast_part(
    repo: Repo,
    store: Store,
    single: bool,
    file: Seq<char>,
    mode: AnalysisMode,
) -> Seq<char> {
    crate::global::attributed(
        repo.name@,
        crate::notes::read_notes(store, blast_text(store, file, mode), repo.head_view()),
        single,
    )
}

/// What each repository gives.
pub open spec fn blast_parts(file: Seq<char>, mode: AnalysisMode) -> spec_fn(Repo, Store, bool) -> Seq<char> {
    |x: Repo, s: Store, single: bool| blast_part(x, s, single, file, mode)
}

/// The answer over the registered repositories.
pub open spec fn blast_global(
    repos: Seq<Repo>,
    file: Seq<char>,
    repo: Option<Seq<char>>,
    mode: AnalysisMode,
) -> Seq<char> {
    if crate::sanitize::arg_ok(file) {
        crate::sanitize::scalar(
            crate::global::gathered(
                repos,
                repo,
                blast_parts(file, mode),
            ),
        )
    } else {
        Seq::empty()
    }
}

/// The files affected by a change to a file, in one named repository or in all.
pub fn get_blast_radius_global(
    repos: &Vec<Repo>,
    file: &str,
    repo: Option<&str>,
    mode: AnalysisMode,
) -> (r: String)
    ensures
        r@ == blast_global(repos@, file@, opt_view(repo), mode),
{
    if !is_valid_arg(file) {
        return String::new();
    }
    let f = |x: &Repo, s: &Store, single: bool| -> (o: String)
        ensures
            o@ == blast_part(*x, *s, single, file@, mode),
        {
            let raw = get_blast_radius_raw(s, file, mode);
            attribute(x.name.as_str(), append_read_notes(s, raw, x.head_ref()), single)
        };
    let raw = collect_global(
        repos,
        repo,
        f,
        Ghost(blast_parts(file@, mode)),
    );
    sanitize_for_mcp(raw.as_str())
}

// ---------------------------------------------------------------- laws

/// Below the most that are followed, the answer is exactly the affected files in order, unless only
/// calls are followed and none are known.
pub proof fn law_small_radius_is_exact(store: Store, file: Seq<char>, mode: AnalysisMode)
    requires
        !is_blind(store, mode, seeds(store, file)),
        affected_nodes(store, mode, seeds(store, file)).len() < MAX_BLAST_RADIUS_NODES,
        affected_files(store, mode, seeds(store, file)).len() < MAX_BLAST_RADIUS_NODES,
    ensures
        blast_text(store, file, mode) == crate::text::join(
            crate::order::sorted_of(affected_files(store, mode, seeds(store, file))),
            "\n"@,
        ),
{
    crate::radius::law_radius_is_what_is_affected(store, mode, seeds(store, file));
}

/// A file that is found is among those that a change to it affects, unless only calls are followed
/// and none are known.
pub proof fn law_file_affects_itself(store: Store, file: Seq<char>, mode: AnalysisMode, i: int)
    requires
        !is_blind(store, mode, seeds(store, file)),
        0 <= i < seeds(store, file).len(),
        seeds(store, file)[i].path@.len() > 0,
    ensures
        crate::radius::radius(store, mode, seeds(store, file)).contains(
            seeds(store, file)[i].path@,
        ),
        exists|lines: Seq<Seq<char>>| #[trigger]
            lines.contains(seeds(store, file)[i].path@) && blast_text(store, file, mode)
                == crate::text::join(lines, "\n"@),
{
    let hits = seeds(store, file);
    let s = crate::radius::radius(store, mode, hits);
    crate::radius::law_radius_is_what_is_affected(store, mode, hits);
    assert(seed_files(hits).contains(hits[i].path@));
    crate::order::law_finite_set_is_sorted(s);
    assert(crate::order::sorted_of(s).to_set().contains(hits[i].path@));
    assert(crate::order::sorted_of(s).contains(hits[i].path@));
}

/// Where only calls are followed and none are recorded, the answer is empty.
pub proof fn law_no_calls_no_radius(store: Store, file: Seq<char>)
    requires
        store.call_languages@.len() == 0,
        forall|i: int|
            0 <= i < store.edges@.len() ==> (#[trigger] store.edges@[i]).kind != EdgeKind::RefCall,
    ensures
        blast_text(store, file, AnalysisMode::Semantic) == Seq::<char>::empty(),
{
    assert(crate::text::views(store.call_languages@) =~= Seq::<Seq<char>>::empty());
    assert(is_blind(store, AnalysisMode::Semantic, seeds(store, file)));
}

/// Every affected file has a line of its own, in order and once, and nothing else is listed: as long as
/// fewer nodes and files are affected than are followed at most.
pub proof fn law_every_affected_file_is_listed(
    store: Store,
    file: Seq<char>,
    mode: AnalysisMode,
    hits: Seq<Node>,
)
    requires
        store.name_hits(file) == Some(hits),
        !is_blind(store, mode, hits),
        crate::radius::affected_nodes(store, mode, hits).len() < 50_000,
        crate::radius::affected_files(store, mode, hits).len() < 50_000,
    ensures
        forall|p: Seq<char>| #[trigger]
            crate::radius::affected_files(store, mode, hits).contains(p) ==> crate::lines::has_line(
                blast_text(store, file, mode),
                p,
            ),
        exists|ls: Seq<Seq<char>>|
            blast_text(store, file, mode) == #[trigger] crate::text::join(ls, "\n"@)
                && crate::order::ascending(ls) && ls.to_set() == crate::radius::affected_files(
                store,
                mode,
                hits,
            ),
{
    crate::radius::law_radius_is_what_is_affected(store, mode, hits);
    let all = crate::radius::affected_files(store, mode, hits);
    crate::order::law_finite_set_is_sorted(all);
    let ls = crate::order::sorted_of(all);
    assert(blast_text(store, file, mode) == crate::text::join(ls, "\n"@));
    assert forall|p: Seq<char>| #[trigger] all.contains(p) implies crate::lines::has_line(
        blast_text(store, file, mode),
        p,
    ) by {
        assert(ls.to_set().contains(p));
        let k = choose|k: int| 0 <= k < ls.len() && ls[k] == p;
        crate::lines::lemma_join_has_line(ls, k);
    }
}

} // verus!
