//! JSON values in exchange with `serde_json`: all that is taken from that crate on
//! trust stands here.

use crate::compact::{json_text, quoted_list};
use crate::json::{items_view, json_view, members_view, Json, JsonView};
use crate::text::{signed_decimal, texts};
use vstd::prelude::*;

verus! {

/// `serde_json::Number`, opaque: a number is carried through, never looked into.
#[verifier::external_type_specification]
#[verifier::external_body]
pub struct ExNumber(serde_json::Number);

/// `serde_json::Value`, opaque: a tree that is handed over or taken over whole.
#[verifier::external_type_specification]
#[verifier::external_body]
pub struct ExValue(serde_json::Value);

/// `serde_json::Map`, opaque: the members of an object.
#[verifier::external_type_specification]
#[verifier::external_body]
#[verifier::reject_recursive_types(K)]
#[verifier::reject_recursive_types(V)]
pub struct ExMap<K, V>(serde_json::Map<K, V>);

/// `serde_json::Error`, opaque.
#[verifier::external_type_specification]
#[verifier::external_body]
pub struct ExError(serde_json::Error);

/// What a `serde_json::Number` holds, by the numeral that its `Display` writes:
/// decimal digits for an integer, the shortest form that reads back as the same
/// number for any other.
pub uninterp spec fn numeral(n: serde_json::Number) -> Seq<char>;

/// What a `serde_json::Value` holds.
pub uninterp spec fn value_view(value: serde_json::Value) -> JsonView;

/// What the members of a `serde_json::Map` hold, by their names.
pub uninterp spec fn map_view(map: serde_json::Map<String, serde_json::Value>) -> Map<
    Seq<char>,
    JsonView,
>;

/// `<serde_json::Number as Clone>::clone`: a number with the same numeral.
pub assume_specification[ <serde_json::Number as Clone>::clone ](n: &serde_json::Number) -> (r:
    serde_json::Number)
    ensures
        numeral(r) == numeral(*n),
;

/// `<serde_json::Number as From<i64>>::from`: the number whose numeral is the
/// decimal one of the integer.
#[verifier::external_body]
pub(crate) fn integer_number(n: i64) -> (r: serde_json::Number)
    ensures
        numeral(r) == signed_decimal(n as int),
{
    serde_json::Number::from(n)
}

/// `serde_json::Value::Null`: the null value.
#[verifier::external_body]
fn null_value() -> (r: serde_json::Value)
    ensures
        value_view(r) == JsonView::Null,
{
    serde_json::Value::Null
}

/// `serde_json::Value::Bool`: a boolean.
#[verifier::external_body]
fn bool_value(b: bool) -> (r: serde_json::Value)
    ensures
        value_view(r) == JsonView::Bool(b),
{
    serde_json::Value::Bool(b)
}

/// `serde_json::Value::Number`: a value with the numeral of the number.
#[verifier::external_body]
fn number_value(n: serde_json::Number) -> (r: serde_json::Value)
    ensures
        value_view(r) == JsonView::Number(numeral(n)),
{
    serde_json::Value::Number(n)
}

/// `serde_json::Value::String`: a value with the text of the string.
#[verifier::external_body]
fn string_value(s: String) -> (r: serde_json::Value)
    ensures
        value_view(r) == JsonView::Str(s@),
{
    serde_json::Value::String(s)
}

/// `serde_json::Value::Array`: what the items hold, in their order.
#[verifier::external_body]
fn array_value(items: Vec<serde_json::Value>) -> (r: serde_json::Value)
    ensures
        value_view(r) == JsonView::Array(items@.map_values(|v: serde_json::Value| value_view(v))),
{
    serde_json::Value::Array(items)
}

/// `serde_json::Map::new`: no members.
#[verifier::external_body]
fn new_map() -> (r: serde_json::Map<String, serde_json::Value>)
    ensures
        map_view(r) == (Map::<Seq<char>, JsonView>::empty()),
{
    serde_json::Map::new()
}

/// `serde_json::Map::insert`: the map has the value under the name, in place of one
/// that was there, and all else stays.
#[verifier::external_body]
fn insert_member(
    map: &mut serde_json::Map<String, serde_json::Value>,
    name: String,
    value: serde_json::Value,
)
    ensures
        map_view(*final(map)) == map_view(*old(map)).insert(name@, value_view(value)),
{
    map.insert(name, value);
}

/// `serde_json::Value::Object`: what the members hold, by their names.
#[verifier::external_body]
fn object_value(members: serde_json::Map<String, serde_json::Value>) -> (r: serde_json::Value)
    ensures
        value_view(r) == JsonView::Object(map_view(members)),
{
    serde_json::Value::Object(members)
}

/// `<serde_json::Value as ToString>::to_string`: the compact text of the value. The
/// members of an object come out sorted by name: the crate keeps them in a `BTreeMap`,
/// its feature `preserve_order` being off, and std orders strings by their bytes, which
/// is by the code points of their characters.
#[verifier::external_body]
fn value_text(value: &serde_json::Value) -> (r: String)
    ensures
        r@ == json_text(value_view(*value)),
{
    value.to_string()
}

/// `serde_json::to_string` on a list of strings: a compact JSON array of them. It
/// fails only where a `Serialize` impl does or a map has a key that is no string,
/// and a list of strings has neither.
#[verifier::external_body]
pub(crate) fn strings_json(strings: &[String]) -> (r: Result<String, serde_json::Error>)
    ensures
        r is Ok && r->Ok_0@ == quoted_list(texts(strings@)),
{
    serde_json::to_string(strings)
}

/// A `serde_json::Value` by its variant.
pub(crate) enum ValueParts<'a> {
    Null,
    Bool(bool),
    Number(&'a serde_json::Number),
    Str(&'a String),
    Array(&'a Vec<serde_json::Value>),
    Object(Vec<(&'a String, &'a serde_json::Value)>),
}

/// What the members of an object hold.
spec fn gathered(members: Seq<(&String, &serde_json::Value)>) -> Map<Seq<char>, JsonView>
    decreases members.len(),
{
    if members.len() == 0 {
        Map::empty()
    } else {
        gathered(members.drop_last()).insert(members.last().0@, value_view(*members.last().1))
    }
}

/// What the parts of a value hold.
spec fn parts_view(parts: ValueParts) -> JsonView {
    match parts {
        ValueParts::Null => JsonView::Null,
        ValueParts::Bool(b) => JsonView::Bool(b),
        ValueParts::Number(n) => JsonView::Number(numeral(*n)),
        ValueParts::Str(s) => JsonView::Str(s@),
        ValueParts::Array(items) => JsonView::Array(
            items@.map_values(|v: serde_json::Value| value_view(v)),
        ),
        ValueParts::Object(members) => JsonView::Object(gathered(members@)),
    }
}

/// Tells the variants of `serde_json::Value` apart: the part is what the value
/// holds. `serde_json::Map::iter` gives every member of an object once, under its
/// name.
#[verifier::external_body]
fn value_parts(value: &serde_json::Value) -> (parts: ValueParts<'_>)
    ensures
        parts_view(parts) == value_view(*value),
        parts matches ValueParts::Object(members) ==> (forall|i: int, j: int|
            0 <= i < j < members@.len() ==> (#[trigger] members@[i]).0@ != (
            #[trigger] members@[j]).0@),
{
    match value {
        serde_json::Value::Null => ValueParts::Null,
        serde_json::Value::Bool(b) => ValueParts::Bool(*b),
        serde_json::Value::Number(n) => ValueParts::Number(n),
        serde_json::Value::String(s) => ValueParts::Str(s),
        serde_json::Value::Array(items) => ValueParts::Array(items),
        serde_json::Value::Object(members) => ValueParts::Object(members.iter().collect()),
    }
}

/// A member with a name of its own is found under it.
proof fn lemma_gathered(members: Seq<(&String, &serde_json::Value)>, k: int)
    requires
        0 <= k < members.len(),
        forall|i: int, j: int|
            0 <= i < j < members.len() ==> (#[trigger] members[i]).0@ != (
            #[trigger] members[j]).0@,
    ensures
        gathered(members).dom().finite(),
        gathered(members).contains_key(members[k].0@),
        gathered(members)[members[k].0@] == value_view(*members[k].1),
    decreases members.len(),
{
    let before = members.drop_last();
    lemma_gathered_finite(before);
    if k < members.len() - 1 {
        assert(members[k].0@ != members[members.len() - 1].0@);
        assert forall|i: int, j: int| 0 <= i < j < before.len() implies (#[trigger] before[i]).0@
            != (#[trigger] before[j]).0@ by {
            assert(before[i] == members[i] && before[j] == members[j]);
        }
        lemma_gathered(before, k);
    }
}

/// An object has finitely many members.
proof fn lemma_gathered_finite(members: Seq<(&String, &serde_json::Value)>)
    ensures
        gathered(members).dom().finite(),
    decreases members.len(),
{
    if members.len() > 0 {
        lemma_gathered_finite(members.drop_last());
    }
}

/// Hands a value over to `serde_json`.
pub fn to_value(json: &Json) -> (value: serde_json::Value)
    ensures
        value_view(value) == json@,
    decreases json,
{
    match json {
        Json::Null => null_value(),
        Json::Bool(b) => bool_value(*b),
        Json::Number(n) => number_value(n.clone()),
        Json::Str(s) => string_value(s.clone()),
        Json::Array(items) => {
            let mut values: Vec<serde_json::Value> = Vec::new();
            let mut i: usize = 0;
            while i < items.len()
                invariant
                    i <= items@.len(),
                    values@.map_values(|v: serde_json::Value| value_view(v)) == items_view(
                        items@.take(i as int),
                    ),
                    decreases_to!(json => items),
                decreases items@.len() - i,
            {
                let ghost before = values@;
                values.push(to_value(&items[i]));
                assert(items@.take(i + 1).drop_last() =~= items@.take(i as int));
                assert(values@.map_values(|v: serde_json::Value| value_view(v))
                    =~= before.map_values(|v: serde_json::Value| value_view(v)).push(
                    json_view(items@[i as int]),
                ));
                i = i + 1;
            }
            assert(items@.take(items@.len() as int) =~= items@);
            array_value(values)
        },
        Json::Object(members) => {
            let mut values = new_map();
            let mut i: usize = 0;
            while i < members.len()
                invariant
                    i <= members@.len(),
                    map_view(values) == members_view(members@.take(i as int)),
                    decreases_to!(json => members),
                decreases members@.len() - i,
            {
                let value = to_value(&members[i].1);
                insert_member(&mut values, members[i].0.clone(), value);
                assert(members@.take(i + 1).drop_last() =~= members@.take(i as int));
                i = i + 1;
            }
            assert(members@.take(members@.len() as int) =~= members@);
            object_value(values)
        },
    }
}

/// Takes a value over from `serde_json`.
pub fn from_value(value: &serde_json::Value) -> (json: Json)
    ensures
        json@ == value_view(*value),
    decreases value_view(*value),
{
    match value_parts(value) {
        ValueParts::Null => Json::Null,
        ValueParts::Bool(b) => Json::Bool(b),
        ValueParts::Number(n) => Json::Number(n.clone()),
        ValueParts::Str(s) => Json::Str(s.clone()),
        ValueParts::Array(values) => {
            let ghost all = values@.map_values(|v: serde_json::Value| value_view(v));
            let mut items: Vec<Json> = Vec::new();
            let mut i: usize = 0;
            assert(items_view(items@) =~= all.take(0));
            while i < values.len()
                invariant
                    all == values@.map_values(|v: serde_json::Value| value_view(v)),
                    value_view(*value) == JsonView::Array(all),
                    i <= values@.len(),
                    items_view(items@) == all.take(i as int),
                decreases values@.len() - i,
            {
                let ghost before = items@;
                assert(all[i as int] == value_view(values@[i as int]));
                assert(decreases_to!(value_view(*value) => value_view(*value)->Array_0));
                assert(decreases_to!(all => all[i as int]));
                items.push(from_value(&values[i]));
                assert(items@.drop_last() =~= before);
                assert(all.take(i + 1) =~= all.take(i as int).push(all[i as int]));
                i = i + 1;
            }
            assert(all.take(all.len() as int) =~= all);
            Json::Array(items)
        },
        ValueParts::Object(values) => {
            let mut members: Vec<(String, Json)> = Vec::new();
            let mut i: usize = 0;
            while i < values.len()
                invariant
                    value_view(*value) == JsonView::Object(gathered(values@)),
                    forall|j: int, k: int|
                        0 <= j < k < values@.len() ==> (#[trigger] values@[j]).0@ != (
                        #[trigger] values@[k]).0@,
                    i <= values@.len(),
                    members_view(members@) == gathered(values@.take(i as int)),
                decreases values@.len() - i,
            {
                let ghost before = members@;
                let ghost name = values@[i as int].0@;
                proof {
                    lemma_gathered(values@, i as int);
                    assert(decreases_to!(value_view(*value) => value_view(*value)->Object_0));
                    assert(decreases_to!(gathered(values@) => gathered(values@)[name]));
                }
                let member = from_value(values[i].1);
                members.push((values[i].0.clone(), member));
                assert(members@.drop_last() =~= before);
                assert(values@.take(i + 1).drop_last() =~= values@.take(i as int));
                i = i + 1;
            }
            assert(values@.take(values@.len() as int) =~= values@);
            Json::Object(members)
        },
    }
}

impl Json {
    /// The compact text of the value.
    pub fn to_text(&self) -> (text: String)
        ensures
            text@ == json_text(self@),
    {
        value_text(&to_value(self))
    }
}

} // verus!
