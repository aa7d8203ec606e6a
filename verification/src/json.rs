//! JSON values of the `serde_json` crate, seen through their contents.

use vstd::prelude::*;

verus! {

/// What a JSON value holds.
pub enum JsonView {
    Null,
    Bool(bool),
    Uint(nat),
    /// Any other number, by its text.
    Number(Seq<char>),
    Text(Seq<char>),
    List(Seq<JsonView>),
    Object(Map<Seq<char>, JsonView>),
}

/// A JSON value.
#[verifier::external_type_specification]
#[verifier::external_body]
pub struct ExValue(serde_json::Value);

/// The contents of a JSON value.
pub uninterp spec fn json_of(v: serde_json::Value) -> JsonView;

/// The compact text of a JSON value with the given contents.
pub uninterp spec fn json_text(v: JsonView) -> Seq<char>;

/// The contents of the value that a JSON text denotes; `None` where it denotes none.
pub uninterp spec fn json_parsed(text: Seq<char>) -> Option<JsonView>;

/// The contents of several values.
pub open spec fn jsons_of(v: Seq<serde_json::Value>) -> Seq<JsonView> {
    Seq::new(v.len(), |i: int| json_of(v[i]))
}

/// The fields that pairs give an object; of two with one name the later counts.
pub open spec fn fields(v: Seq<(Seq<char>, JsonView)>) -> Map<Seq<char>, JsonView>
    decreases v.len(),
{
    if v.len() == 0 {
        Map::empty()
    } else {
        fields(v.drop_last()).insert(v.last().0, v.last().1)
    }
}

/// The object with the given fields.
pub open spec fn object(v: Seq<(Seq<char>, JsonView)>) -> JsonView {
    JsonView::Object(fields(v))
}

/// The contents of named values.
pub open spec fn named(v: Seq<(String, serde_json::Value)>) -> Seq<(Seq<char>, JsonView)> {
    Seq::new(v.len(), |i: int| (v[i].0@, json_of(v[i].1)))
}

pub open spec fn texts(v: Seq<Seq<char>>) -> Seq<JsonView> {
    Seq::new(v.len(), |i: int| JsonView::Text(v[i]))
}

/// `serde_json::Value::Null`: the value that holds nothing.
#[verifier::external_body]
pub(crate) fn null_value() -> (r: serde_json::Value)
    ensures
        json_of(r) == JsonView::Null,
{
    serde_json::Value::Null
}

/// `From<bool>` of `serde_json::Value`: the value holds that truth value.
#[verifier::external_body]
pub(crate) fn bool_value(b: bool) -> (r: serde_json::Value)
    ensures
        json_of(r) == JsonView::Bool(b),
{
    serde_json::Value::from(b)
}

/// `From<u64>` of `serde_json::Value`: the value holds that number.
#[verifier::external_body]
pub(crate) fn uint_value(n: u64) -> (r: serde_json::Value)
    ensures
        json_of(r) == JsonView::Uint(n as nat),
{
    serde_json::Value::from(n)
}

/// `From<&str>` of `serde_json::Value`: the value holds that text.
#[verifier::external_body]
pub(crate) fn text_value(s: &str) -> (r: serde_json::Value)
    ensures
        json_of(r) == JsonView::Text(s@),
{
    serde_json::Value::from(s)
}

/// `From<Vec<_>>` of `serde_json::Value`: the value is the list of the given values, in order.
#[verifier::external_body]
pub(crate) fn list_value(v: Vec<serde_json::Value>) -> (r: serde_json::Value)
    ensures
        json_of(r) == JsonView::List(jsons_of(v@)),
{
    serde_json::Value::from(v)
}

/// `FromIterator<(String, Value)>` of `serde_json::Value`: the value is the object with the given
/// fields.
#[verifier::external_body]
pub(crate) fn object_value(v: Vec<(String, serde_json::Value)>) -> (r: serde_json::Value)
    ensures
        json_of(r) == object(named(v@)),
{
    serde_json::Value::from_iter(v)
}

/// `serde_json::from_str`: the value that a text denotes. What the value holds is a function of
/// the text alone; a text that is no JSON gives an error, here `None`.
#[verifier::external_body]
pub(crate) fn parse_value(text: &str) -> (r: Option<serde_json::Value>)
    ensures
        r is Some == json_parsed(text@) is Some,
        r matches Some(v) ==> json_parsed(text@) == Some(json_of(v)),
{
    serde_json::from_str(text).ok()
}

/// `serde_json::to_string`: the compact text of a value. Writing fails only for a custom
/// serializer or for a map whose keys are no strings; a value has neither.
#[verifier::external_body]
pub(crate) fn value_text(v: &serde_json::Value) -> (r: Option<String>)
    ensures
        r is Some,
        r matches Some(s) ==> s@ == json_text(json_of(*v)),
{
    serde_json::to_string(v).ok()
}

/// Adds a field.
pub(crate) fn put(v: &mut Vec<(String, serde_json::Value)>, name: &str, x: serde_json::Value)
    ensures
        named(final(v)@) == named(old(v)@).push((name@, json_of(x))),
{
    let ghost was = v@;
    v.push((name.to_owned(), x));
    assert(named(v@) =~= named(was).push((name@, json_of(x))));
}

/// No field yet.
pub(crate) fn no_fields() -> (v: Vec<(String, serde_json::Value)>)
    ensures
        named(v@) == Seq::<(Seq<char>, JsonView)>::empty(),
{
    let v: Vec<(String, serde_json::Value)> = Vec::new();
    assert(named(v@) =~= Seq::<(Seq<char>, JsonView)>::empty());
    v
}

/// A number that may be absent.
pub open spec fn opt_number(n: Option<u32>) -> JsonView {
    match n {
        Some(v) => JsonView::Uint(v as nat),
        None => JsonView::Null,
    }
}

pub(crate) fn opt_number_value(n: Option<u32>) -> (r: serde_json::Value)
    ensures
        json_of(r) == opt_number(n),
{
    match n {
        Some(v) => uint_value(v as u64),
        None => null_value(),
    }
}

/// A text that may be absent.
pub open spec fn opt_text(s: Option<Seq<char>>) -> JsonView {
    match s {
        Some(t) => JsonView::Text(t),
        None => JsonView::Null,
    }
}

pub(crate) fn texts_value(v: &Vec<String>) -> (r: serde_json::Value)
    ensures
        json_of(r) == JsonView::List(texts(crate::text::views(v@))),
{
    let ghost want = texts(crate::text::views(v@));
    let mut out: Vec<serde_json::Value> = Vec::new();
    let mut i: usize = 0;
    while i < v.len()
        invariant
            i <= v@.len(),
            want == texts(crate::text::views(v@)),
            out@.len() == i,
            forall|j: int| 0 <= j < i ==> json_of(#[trigger] out@[j]) == want[j],
        decreases v@.len() - i,
    {
        out.push(text_value(v[i].as_str()));
        i += 1;
    }
    assert(jsons_of(out@) =~= want);
    list_value(out)
}

/// The text of a value.
pub(crate) fn to_text(v: &serde_json::Value) -> (r: String)
    ensures
        r@ == json_text(json_of(*v)),
{
    match value_text(v) {
        Some(s) => s,
        None => String::new(),
    }
}

} // verus!
