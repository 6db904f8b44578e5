//! JSON documents: what a parsed document holds, and how it is read and built.
use vstd::prelude::*;

verus! {

/// What a JSON value holds.
pub enum JsonView {
    Null,
    Bool(bool),
    /// A whole number that is not negative
    Unsigned(u64),
    /// A negative whole number
    Negative(i64),
    /// Any other number, by the bits of its double
    Float(u64),
    Text(Seq<char>),
    Array(Seq<JsonView>),
    Object(Map<Seq<char>, JsonView>),
}

/// The member of a value by its name, where the value is an object and has it.
pub open spec fn member(v: JsonView, name: Seq<char>) -> Option<JsonView> {
    match v {
        JsonView::Object(members) => if members.dom().contains(name) {
            Some(members[name])
        } else {
            None
        },
        _ => None,
    }
}

/// The member of an optional value.
pub open spec fn member_of(v: Option<JsonView>, name: Seq<char>) -> Option<JsonView> {
    match v {
        Some(w) => member(w, name),
        None => None,
    }
}

/// The text that a value holds.
pub open spec fn text_in(v: Option<JsonView>) -> Option<Seq<char>> {
    match v {
        Some(JsonView::Text(s)) => Some(s),
        _ => None,
    }
}

/// The whole number, not negative, that a value holds.
pub open spec fn unsigned_in(v: Option<JsonView>) -> Option<u64> {
    match v {
        Some(JsonView::Unsigned(n)) => Some(n),
        _ => None,
    }
}

/// The truth value that a value holds.
pub open spec fn bool_in(v: Option<JsonView>) -> Option<bool> {
    match v {
        Some(JsonView::Bool(b)) => Some(b),
        _ => None,
    }
}

/// The elements that a value holds.
pub open spec fn items_in(v: Option<JsonView>) -> Option<Seq<JsonView>> {
    match v {
        Some(JsonView::Array(items)) => Some(items),
        _ => None,
    }
}

/// `serde_json::Value`, a parsed document.
#[verifier::external_type_specification]
#[verifier::external_body]
pub struct ExJsonValue(serde_json::Value);

/// What a `serde_json::Value` holds.
pub uninterp spec fn contents(v: serde_json::Value) -> JsonView;

/// What `serde_json::from_str` finds in a text, or what it says of one that is no
/// document.
pub uninterp spec fn json_of_text(text: Seq<char>) -> Result<JsonView, Seq<char>>;

/// What `serde_json` prints of a value, without blanks.
pub uninterp spec fn text_of_json(v: JsonView) -> Seq<char>;

/// What an optional reference to a value holds.
pub open spec fn contents_of(v: Option<&serde_json::Value>) -> Option<JsonView> {
    match v {
        Some(w) => Some(contents(*w)),
        None => None,
    }
}

/// What a list of values holds.
pub open spec fn contents_seq(s: Seq<serde_json::Value>) -> Seq<JsonView> {
    s.map_values(|v: serde_json::Value| contents(v))
}

/// `serde_json::from_str` into a `serde_json::Value`: the document in a text, or
/// the printed error where there is none. Both rest on the text alone.
#[verifier::external_body]
pub(crate) fn parse(text: &str) -> (res: Result<serde_json::Value, String>)
    ensures
        match res {
            Ok(v) => json_of_text(text@) == Ok::<JsonView, Seq<char>>(contents(v)),
            Err(e) => json_of_text(text@) == Err::<JsonView, Seq<char>>(e@),
        },
{
    serde_json::from_str(text).map_err(|e| e.to_string())
}

/// `serde_json::Value::to_string`: the value printed without blanks.
#[verifier::external_body]
pub(crate) fn print(v: &serde_json::Value) -> (text: String)
    ensures
        text@ == text_of_json(contents(*v)),
{
    v.to_string()
}

/// `serde_json::Value::get` with a string: the member of that name, if the value
/// is an object that has it.
#[verifier::external_body]
pub(crate) fn get<'a>(v: &'a serde_json::Value, name: &str) -> (res: Option<&'a serde_json::Value>)
    ensures
        contents_of(res) == member(contents(*v), name@),
{
    v.get(name)
}

/// `serde_json::Value::as_str`: the text, if the value is one.
#[verifier::external_body]
pub(crate) fn as_str(v: &serde_json::Value) -> (res: Option<&str>)
    ensures
        res is Some <==> text_in(Some(contents(*v))) is Some,
        res matches Some(s) ==> Some(s@) == text_in(Some(contents(*v))),
{
    v.as_str()
}

/// `serde_json::Value::as_u64`: the number, if the value is whole and not negative.
#[verifier::external_body]
pub(crate) fn as_u64(v: &serde_json::Value) -> (res: Option<u64>)
    ensures
        res == unsigned_in(Some(contents(*v))),
{
    v.as_u64()
}

/// `serde_json::Value::as_bool`: the truth value, if the value is one.
#[verifier::external_body]
pub(crate) fn as_bool(v: &serde_json::Value) -> (res: Option<bool>)
    ensures
        res == bool_in(Some(contents(*v))),
{
    v.as_bool()
}

/// `serde_json::Value::as_array`: the elements in their order, if the value is
/// an array.
#[verifier::external_body]
pub(crate) fn as_array(v: &serde_json::Value) -> (res: Option<&Vec<serde_json::Value>>)
    ensures
        res is Some <==> items_in(Some(contents(*v))) is Some,
        res matches Some(items) ==> Some(contents_seq(items@)) == items_in(Some(contents(*v))),
{
    v.as_array()
}

/// `Clone` of `serde_json::Value`: a value that holds the same.
#[verifier::external_body]
pub(crate) fn copy(v: &serde_json::Value) -> (res: serde_json::Value)
    ensures
        contents(res) == contents(*v),
{
    v.clone()
}

/// `serde_json::Value::Null`.
#[verifier::external_body]
pub(crate) fn null() -> (res: serde_json::Value)
    ensures
        contents(res) == JsonView::Null,
{
    serde_json::Value::Null
}

/// `serde_json::Value::from` a `bool`.
#[verifier::external_body]
pub(crate) fn boolean(b: bool) -> (res: serde_json::Value)
    ensures
        contents(res) == JsonView::Bool(b),
{
    serde_json::Value::from(b)
}

/// `serde_json::Value::from` an `i64`: negative numbers and others are kept apart.
#[verifier::external_body]
pub(crate) fn integer(n: i64) -> (res: serde_json::Value)
    ensures
        contents(res) == (if n < 0 {
            JsonView::Negative(n)
        } else {
            JsonView::Unsigned(n as u64)
        }),
{
    serde_json::Value::from(n)
}

/// `serde_json::Value::from` a `String`.
#[verifier::external_body]
pub(crate) fn text(s: String) -> (res: serde_json::Value)
    ensures
        contents(res) == JsonView::Text(s@),
{
    serde_json::Value::from(s)
}

/// `serde_json::Value::from` a `Vec` of values: an array of them in their order.
#[verifier::external_body]
pub(crate) fn array(items: Vec<serde_json::Value>) -> (res: serde_json::Value)
    ensures
        contents(res) == JsonView::Array(contents_seq(items@)),
{
    serde_json::Value::from(items)
}

/// `serde_json::Value::Object` of a `serde_json::Map` collected from named
/// members; of two with one name the later one stays.
#[verifier::external_body]
pub(crate) fn object(members: Vec<(String, serde_json::Value)>) -> (res: serde_json::Value)
    ensures
        contents(res) == JsonView::Object(members_map(members@)),
{
    serde_json::Value::Object(members.into_iter().collect())
}

/// The members by their names.
pub open spec fn members_map(members: Seq<(String, serde_json::Value)>) -> Map<Seq<char>, JsonView>
    decreases members.len(),
{
    if members.len() == 0 {
        Map::empty()
    } else {
        members_map(members.drop_last()).insert(members.last().0@, contents(members.last().1))
    }
}

/// An object with a single member.
pub open spec fn object1(name: Seq<char>, value: JsonView) -> JsonView {
    JsonView::Object(Map::empty().insert(name, value))
}

/// An object with two members.
pub open spec fn object2(n1: Seq<char>, v1: JsonView, n2: Seq<char>, v2: JsonView) -> JsonView {
    JsonView::Object(Map::empty().insert(n1, v1).insert(n2, v2))
}

/// An object with three members.
pub open spec fn object3(
    n1: Seq<char>,
    v1: JsonView,
    n2: Seq<char>,
    v2: JsonView,
    n3: Seq<char>,
    v3: JsonView,
) -> JsonView {
    JsonView::Object(Map::empty().insert(n1, v1).insert(n2, v2).insert(n3, v3))
}

/// Builds an object with a single member.
pub(crate) fn make_object1(name: &str, value: serde_json::Value) -> (res: serde_json::Value)
    ensures
        contents(res) == object1(name@, contents(value)),
{
    let mut members: Vec<(String, serde_json::Value)> = Vec::new();
    members.push((name.to_owned(), value));
    proof {
        assert(members@.drop_last() =~= Seq::empty());
        reveal_with_fuel(members_map, 2);
    }
    object(members)
}

/// Builds an object with two members.
pub(crate) fn make_object2(
    n1: &str,
    v1: serde_json::Value,
    n2: &str,
    v2: serde_json::Value,
) -> (res: serde_json::Value)
    ensures
        contents(res) == object2(n1@, contents(v1), n2@, contents(v2)),
{
    let mut members: Vec<(String, serde_json::Value)> = Vec::new();
    members.push((n1.to_owned(), v1));
    let ghost first = members@;
    members.push((n2.to_owned(), v2));
    proof {
        assert(first.drop_last() =~= Seq::empty());
        assert(members@.drop_last() =~= first);
        reveal_with_fuel(members_map, 3);
    }
    object(members)
}

/// Builds an object with three members.
pub(crate) fn make_object3(
    n1: &str,
    v1: serde_json::Value,
    n2: &str,
    v2: serde_json::Value,
    n3: &str,
    v3: serde_json::Value,
) -> (res: serde_json::Value)
    ensures
        contents(res) == object3(n1@, contents(v1), n2@, contents(v2), n3@, contents(v3)),
{
    let mut members: Vec<(String, serde_json::Value)> = Vec::new();
    members.push((n1.to_owned(), v1));
    let ghost first = members@;
    members.push((n2.to_owned(), v2));
    let ghost second = members@;
    members.push((n3.to_owned(), v3));
    proof {
        assert(first.drop_last() =~= Seq::empty());
        assert(second.drop_last() =~= first);
        assert(members@.drop_last() =~= second);
        reveal_with_fuel(members_map, 4);
    }
    object(members)
}

/// Builds an array with a single element.
pub(crate) fn make_array1(item: serde_json::Value) -> (res: serde_json::Value)
    ensures
        contents(res) == JsonView::Array(seq![contents(item)]),
{
    let mut items: Vec<serde_json::Value> = Vec::new();
    items.push(item);
    assert(contents_seq(items@) =~= seq![contents(item)]);
    array(items)
}

/// The member of an optional value.
pub(crate) fn get_of<'a>(v: Option<&'a serde_json::Value>, name: &str) -> (res: Option<
    &'a serde_json::Value,
>)
    ensures
        contents_of(res) == member_of(contents_of(v), name@),
{
    match v {
        Some(w) => get(w, name),
        None => None,
    }
}

/// The text of an optional value, or a default.
pub(crate) fn text_or(v: Option<&serde_json::Value>, default: &str) -> (res: String)
    ensures
        res@ == text_or_default(contents_of(v), default@),
{
    match v {
        Some(w) => match as_str(w) {
            Some(s) => s.to_owned(),
            None => default.to_owned(),
        },
        None => default.to_owned(),
    }
}

/// The text that a value holds, or a default.
pub open spec fn text_or_default(v: Option<JsonView>, default: Seq<char>) -> Seq<char> {
    match text_in(v) {
        Some(s) => s,
        None => default,
    }
}

} // verus!
