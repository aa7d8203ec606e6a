//! Which nodes are worth showing as context.

use vstd::prelude::*;

use crate::split::lower_of;
use crate::store::Node;
use crate::text::{chars_of, has_prefix, has_str, has_suffix, same, tail_after_last};

verus! {

/// Whether the standard library holds a character to be an uppercase letter.
pub uninterp spec fn is_upper(c: char) -> bool;

/// Calls `char::is_uppercase`, which depends on nothing but the character. Which characters those
/// are is left to the Unicode tables of the standard library.
#[verifier::external_body]
fn upper(c: char) -> (r: bool)
    ensures
        r == is_upper(c),
{
    c.is_uppercase()
}

/// The uppercase mapping of a character in the standard library.
pub uninterp spec fn upper_case(c: char) -> Seq<char>;

/// Calls `char::to_uppercase`, which depends on nothing but the character and yields one or more
/// characters. Which ones is left to the Unicode tables of the standard library.
#[verifier::external_body]
pub(crate) fn upper_case_of(c: char) -> (r: String)
    ensures
        r@ == upper_case(c),
        r@.len() >= 1,
{
    c.to_uppercase().to_string()
}

/// A node that never starts a search for context: the index classified it as noise.
pub fn is_noise_seed(node: &Node) -> (r: bool)
    ensures
        r == node.is_noise,
{
    node.is_noise
}

/// A node that is never an answer: noise, a dependency, or a whole file.
pub open spec fn result_noise(n: Node) -> bool {
    n.is_noise || n.kind@ == "package"@ || crate::text::starts_with(n.signature@, "pkg:"@)
        || n.kind@ == "file"@
}

/// Whether a node is never an answer.
pub fn is_context_result_noise(node: &Node) -> (r: bool)
    ensures
        r == result_noise(*node),
{
    is_noise_seed(node) || same(node.kind.as_str(), "package") || has_prefix(
        node.signature.as_str(),
        "pkg:",
    ) || same(node.kind.as_str(), "file")
}

/// A name that starts with a marker followed by an uppercase letter.
pub open spec fn marked_name(name: Seq<char>, marker: Seq<char>) -> bool {
    crate::text::starts_with(name, marker) && name.len() > marker.len() && is_upper(
        name[marker.len() as int],
    )
}

fn has_marked_name(name: &str, marker: &str) -> (r: bool)
    ensures
        r == marked_name(name@, marker@),
{
    if !has_prefix(name, marker) {
        return false;
    }
    let n = chars_of(name);
    let m = chars_of(marker);
    if n.len() > m.len() {
        upper(n[m.len()])
    } else {
        false
    }
}

/// A function or method whose name says that it is a test.
pub open spec fn test_symbol(n: Node) -> bool {
    let name = crate::text::after_last(n.signature@, '#', ':');
    let lower = crate::split::lower(name);
    &&& n.kind@ == "function"@ || n.kind@ == "method"@
    &&& (crate::text::starts_with(lower, "test_"@) || crate::text::ends_with(lower, "_test"@)
        || crate::text::contains(lower, "_test_"@) || marked_name(name, "Test"@) || marked_name(
        name,
        "Benchmark"@,
    ) || marked_name(name, "Fuzz"@))
}

/// Whether the name of a node says that it is a test.
pub fn is_test_symbol(node: &Node) -> (r: bool)
    ensures
        r == test_symbol(*node),
{
    if !same(node.kind.as_str(), "function") && !same(node.kind.as_str(), "method") {
        return false;
    }
    let name = tail_after_last(node.signature.as_str(), '#', ':');
    let lower = lower_of(name.as_str());
    has_prefix(lower.as_str(), "test_") || has_suffix(lower.as_str(), "_test") || has_str(
        lower.as_str(),
        "_test_",
    ) || has_marked_name(name.as_str(), "Test") || has_marked_name(name.as_str(), "Benchmark")
        || has_marked_name(name.as_str(), "Fuzz")
}

/// A node that no word of a query is anchored to.
pub open spec fn anchor_noise(n: Node) -> bool {
    result_noise(n) || n.is_test || test_symbol(n)
}

/// Whether no word of a query is anchored to a node.
pub fn is_anchor_noise(node: &Node) -> (r: bool)
    ensures
        r == anchor_noise(*node),
{
    is_context_result_noise(node) || node.is_test || is_test_symbol(node)
}

/// How much a match on a kind of node counts, in hundredths.
pub open spec fn boost(kind: Seq<char>, language: Seq<char>) -> nat {
    if kind == "method"@ || kind == "function"@ || kind == "constructor"@ {
        200
    } else if kind == "class"@ || kind == "interface"@ || kind == "struct"@ || kind == "enum"@
        || kind == "trait"@ || kind == "union"@ {
        150
    } else if kind == "constant"@ || kind == "static"@ {
        120
    } else if kind == "field"@ || kind == "var"@ || kind == "variable"@ || kind == "property"@ {
        70
    } else if kind == "import"@ || kind == "file-module"@ || kind == "crate"@ {
        30
    } else if kind == "go-pkg"@ || (kind == "module"@ && language == "go"@) {
        5
    } else {
        100
    }
}

/// How much a match on a kind of node counts, in hundredths.
pub fn kind_boost(kind: &str, language: &str) -> (r: u64)
    ensures
        r == boost(kind@, language@),
{
    if same(kind, "method") || same(kind, "function") || same(kind, "constructor") {
        200
    } else if same(kind, "class") || same(kind, "interface") || same(kind, "struct") || same(
        kind,
        "enum",
    ) || same(kind, "trait") || same(kind, "union") {
        150
    } else if same(kind, "constant") || same(kind, "static") {
        120
    } else if same(kind, "field") || same(kind, "var") || same(kind, "variable") || same(
        kind,
        "property",
    ) {
        70
    } else if same(kind, "import") || same(kind, "file-module") || same(kind, "crate") {
        30
    } else if same(kind, "go-pkg") || (same(kind, "module") && same(language, "go")) {
        5
    } else {
        100
    }
}

// ---------------------------------------------------------------- laws

/// The bar for an anchor is at least as high as the bar for an answer, and that at least as high as
/// the bar for a seed.
pub proof fn law_noise_bars_are_nested(n: Node)
    ensures
        n.is_noise ==> result_noise(n),
        result_noise(n) ==> anchor_noise(n),
{
}

} // verus!
