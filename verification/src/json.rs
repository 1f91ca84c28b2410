//! JSON values: the tree that commands, events and replies are made of.

use crate::interchange::{integer_number, numeral};
use crate::text::{same_text, signed_decimal};
use vstd::prelude::*;

verus! {

/// A JSON value. `==` compares objects member by member, in their order.
#[derive(Debug, PartialEq)]
pub enum Json {
    Null,
    Bool(bool),
    Number(serde_json::Number),
    Str(String),
    Array(Vec<Json>),
    /// The members of an object. Where a name stands twice, the later one counts.
    Object(Vec<(String, Json)>),
}

/// What a [`Json`] stands for. An object has no order.
#[verifier::ext_equal]
pub enum JsonView {
    Null,
    Bool(bool),
    /// A number, by its numeral.
    Number(Seq<char>),
    Str(Seq<char>),
    Array(Seq<JsonView>),
    Object(Map<Seq<char>, JsonView>),
}

impl View for Json {
    type V = JsonView;

    open spec fn view(&self) -> JsonView {
        json_view(*self)
    }
}

/// The value that a [`Json`] stands for.
pub open spec fn json_view(json: Json) -> JsonView
    decreases json,
{
    match json {
        Json::Null => JsonView::Null,
        Json::Bool(b) => JsonView::Bool(b),
        Json::Number(n) => JsonView::Number(numeral(n)),
        Json::Str(s) => JsonView::Str(s@),
        Json::Array(items) => JsonView::Array(items_view(items@)),
        Json::Object(members) => JsonView::Object(members_view(members@)),
    }
}

/// The values that the items of an array stand for.
pub open spec fn items_view(items: Seq<Json>) -> Seq<JsonView>
    decreases items,
{
    if items.len() == 0 {
        Seq::empty()
    } else {
        items_view(items.drop_last()).push(json_view(items.last()))
    }
}

/// The mapping that the members of an object stand for.
pub open spec fn members_view(members: Seq<(String, Json)>) -> Map<Seq<char>, JsonView>
    decreases members,
{
    if members.len() == 0 {
        Map::empty()
    } else {
        members_view(members.drop_last()).insert(members.last().0@, json_view(members.last().1))
    }
}

impl JsonView {
    /// The member of an object under `name`.
    pub open spec fn field(self, name: Seq<char>) -> Option<JsonView> {
        match self {
            JsonView::Object(members) => if members.contains_key(name) {
                Some(members[name])
            } else {
                None
            },
            _ => None,
        }
    }

    /// The text of a string.
    pub open spec fn text(self) -> Option<Seq<char>> {
        match self {
            JsonView::Str(s) => Some(s),
            _ => None,
        }
    }

    /// The truth value of a boolean.
    pub open spec fn truth(self) -> Option<bool> {
        match self {
            JsonView::Bool(b) => Some(b),
            _ => None,
        }
    }

    /// The items of an array.
    pub open spec fn items(self) -> Option<Seq<JsonView>> {
        match self {
            JsonView::Array(items) => Some(items),
            _ => None,
        }
    }

    /// The text of the string member under `name`.
    pub open spec fn str_field(self, name: Seq<char>) -> Option<Seq<char>> {
        match self.field(name) {
            Some(value) => value.text(),
            None => None,
        }
    }
}

/// The items of an array, one by one.
pub proof fn lemma_items_view(items: Seq<Json>)
    ensures
        items_view(items).len() == items.len(),
        forall|i: int|
            0 <= i < items.len() ==> #[trigger] items_view(items)[i] == json_view(items[i]),
    decreases items.len(),
{
    if items.len() > 0 {
        lemma_items_view(items.drop_last());
    }
}

impl Clone for Json {
    fn clone(&self) -> (copy: Json)
        ensures
            copy@ == self@,
        decreases self,
    {
        match self {
            Json::Null => Json::Null,
            Json::Bool(b) => Json::Bool(*b),
            Json::Number(n) => Json::Number(n.clone()),
            Json::Str(s) => Json::Str(s.clone()),
            Json::Array(items) => {
                let mut copies: Vec<Json> = Vec::new();
                let mut i: usize = 0;
                while i < items.len()
                    invariant
                        i <= items@.len(),
                        items_view(copies@) == items_view(items@.take(i as int)),
                        decreases_to!(self => items),
                    decreases items@.len() - i,
                {
                    let ghost before = copies@;
                    copies.push(items[i].clone());
                    assert(items@.take(i + 1).drop_last() =~= items@.take(i as int));
                    assert(copies@.drop_last() =~= before);
                    i = i + 1;
                }
                assert(items@.take(items@.len() as int) =~= items@);
                Json::Array(copies)
            },
            Json::Object(members) => {
                let mut copies: Vec<(String, Json)> = Vec::new();
                let mut i: usize = 0;
                while i < members.len()
                    invariant
                        i <= members@.len(),
                        members_view(copies@) == members_view(members@.take(i as int)),
                        decreases_to!(self => members),
                    decreases members@.len() - i,
                {
                    let ghost before = copies@;
                    let value = members[i].1.clone();
                    copies.push((members[i].0.clone(), value));
                    assert(members@.take(i + 1).drop_last() =~= members@.take(i as int));
                    assert(copies@.drop_last() =~= before);
                    i = i + 1;
                }
                assert(members@.take(members@.len() as int) =~= members@);
                Json::Object(copies)
            },
        }
    }
}

/// Copies a list of values.
pub fn clone_items(items: &Vec<Json>) -> (copies: Vec<Json>)
    ensures
        items_view(copies@) == items_view(items@),
{
    let mut copies: Vec<Json> = Vec::new();
    let mut i: usize = 0;
    while i < items.len()
        invariant
            i <= items@.len(),
            items_view(copies@) == items_view(items@.take(i as int)),
        decreases items@.len() - i,
    {
        let ghost before = copies@;
        copies.push(items[i].clone());
        assert(items@.take(i + 1).drop_last() =~= items@.take(i as int));
        assert(copies@.drop_last() =~= before);
        i = i + 1;
    }
    assert(items@.take(items@.len() as int) =~= items@);
    copies
}

/// Adds a member to the end of a list of members.
pub fn push_member(members: &mut Vec<(String, Json)>, name: &str, value: Json)
    ensures
        members_view(final(members)@) == members_view(old(members)@).insert(name@, value@),
{
    let ghost before = members@;
    members.push((name.to_string(), value));
    assert(members@.drop_last() =~= before);
}

/// An object with a single member.
pub open spec fn single(name: Seq<char>, value: JsonView) -> JsonView {
    JsonView::Object(Map::<Seq<char>, JsonView>::empty().insert(name, value))
}

/// Writes an object with a single member.
pub(crate) fn single_json(name: &str, value: Json) -> (json: Json)
    ensures
        json@ == single(name@, value@),
{
    let mut members: Vec<(String, Json)> = Vec::new();
    push_member(&mut members, name, value);
    Json::Object(members)
}

impl Json {
    /// A string.
    pub fn from_text(text: &str) -> (json: Json)
        ensures
            json@ == JsonView::Str(text@),
    {
        Json::Str(text.to_string())
    }

    /// An integer.
    pub fn from_integer(n: i64) -> (json: Json)
        ensures
            json@ == JsonView::Number(signed_decimal(n as int)),
    {
        Json::Number(integer_number(n))
    }

    /// The member of an object under `name`.
    pub fn get(&self, name: &str) -> (value: Option<&Json>)
        ensures
            match value {
                Some(json) => self@.field(name@) == Some(json@),
                None => self@.field(name@) is None,
            },
    {
        match self {
            Json::Object(members) => {
                let mut i: usize = members.len();
                assert(members@.take(members@.len() as int) =~= members@);
                while i > 0
                    invariant
                        i <= members@.len(),
                        self@ == JsonView::Object(members_view(members@)),
                        self@.field(name@) == JsonView::Object(
                            members_view(members@.take(i as int)),
                        ).field(name@),
                    decreases i,
                {
                    assert(members@.take(i as int).drop_last() =~= members@.take(i - 1));
                    i = i - 1;
                    if same_text(members[i].0.as_str(), name) {
                        return Some(&members[i].1);
                    }
                }
                None
            },
            _ => None,
        }
    }

    /// The text of a string.
    pub fn as_str(&self) -> (text: Option<&str>)
        ensures
            match text {
                Some(s) => self@.text() == Some(s@),
                None => self@.text() is None,
            },
    {
        match self {
            Json::Str(s) => Some(s.as_str()),
            _ => None,
        }
    }

    /// The truth value of a boolean.
    pub fn as_bool(&self) -> (truth: Option<bool>)
        ensures
            truth == self@.truth(),
    {
        match self {
            Json::Bool(b) => Some(*b),
            _ => None,
        }
    }

    /// The items of an array.
    pub fn as_array(&self) -> (items: Option<&Vec<Json>>)
        ensures
            match items {
                Some(list) => self@.items() == Some(items_view(list@)),
                None => self@.items() is None,
            },
    {
        match self {
            Json::Array(items) => Some(items),
            _ => None,
        }
    }

    /// The text of the string member under `name`.
    pub fn get_str(&self, name: &str) -> (text: Option<&str>)
        ensures
            match text {
                Some(s) => self@.str_field(name@) == Some(s@),
                None => self@.str_field(name@) is None,
            },
    {
        match self.get(name) {
            Some(value) => value.as_str(),
            None => None,
        }
    }
}

/// The member of an object under a name is the one that it has there. Nothing else
/// has members.
pub proof fn law_only_objects_have_members(value: JsonView, name: Seq<char>, member: JsonView)
    ensures
        value.field(name) == Some(member) <==> (value matches JsonView::Object(members)
            && members.contains_key(name) && members[name] == member),
        value.field(name) is None <==> !(value matches JsonView::Object(members)
            && members.contains_key(name)),
{
}

/// A member is read as a text exactly where it is a string.
pub proof fn law_only_strings_are_texts(value: JsonView, name: Seq<char>, text: Seq<char>)
    ensures
        value.str_field(name) == Some(text) <==> (value matches JsonView::Object(members)
            && members.contains_key(name) && members[name] == JsonView::Str(text)),
        value.str_field(name) is Some <==> (value matches JsonView::Object(members)
            && members.contains_key(name) && members[name] is Str),
{
}

/// A value is read as what it is, and only as that.
pub proof fn law_values_are_read_as_they_are(value: JsonView)
    ensures
        value.text() == (match value {
            JsonView::Str(s) => Some(s),
            _ => None,
        }),
        value.truth() == (match value {
            JsonView::Bool(b) => Some(b),
            _ => None,
        }),
        value.items() == (match value {
            JsonView::Array(items) => Some(items),
            _ => None,
        }),
{
}

/// What a [`Json`] stands for has its shape: scalars stand for themselves, an array
/// for its items one by one, an object for its members.
pub proof fn law_view_keeps_the_shape(json: Json)
    ensures
        match json {
            Json::Null => json@ == JsonView::Null,
            Json::Bool(b) => json@ == JsonView::Bool(b),
            Json::Number(n) => json@ == JsonView::Number(numeral(n)),
            Json::Str(s) => json@ == JsonView::Str(s@),
            Json::Array(items) => json@ matches JsonView::Array(views) && views.len() == items@.len()
                && (forall|i: int| 0 <= i < views.len() ==> #[trigger] views[i] == items@[i]@),
            Json::Object(members) => json@ == JsonView::Object(members_view(members@)),
        },
{
    if let Json::Array(items) = json {
        lemma_items_view(items@);
    }
}

/// An object has the names that its members have.
pub proof fn law_object_has_the_names_of_its_members(members: Seq<(String, Json)>, name: Seq<char>)
    ensures
        members_view(members).contains_key(name) <==> exists|i: int|
            0 <= i < members.len() && (#[trigger] members[i]).0@ == name,
    decreases members.len(),
{
    if members.len() > 0 {
        let before = members.drop_last();
        law_object_has_the_names_of_its_members(before, name);
        if members_view(before).contains_key(name) {
            let i = choose|i: int| 0 <= i < before.len() && (#[trigger] before[i]).0@ == name;
            assert(members[i].0@ == name);
        }
        if exists|i: int| 0 <= i < members.len() && (#[trigger] members[i]).0@ == name {
            let i = choose|i: int| 0 <= i < members.len() && (#[trigger] members[i]).0@ == name;
            if i < before.len() {
                assert(before[i].0@ == name);
            } else {
                assert(members.last().0@ == name);
            }
        } else {
            assert(members[members.len() - 1].0@ != name);
        }
    }
}

/// Where a name stands twice, the later member counts.
pub proof fn law_later_member_counts(members: Seq<(String, Json)>, i: int)
    requires
        0 <= i < members.len(),
        forall|j: int| i < j < members.len() ==> (#[trigger] members[j]).0@ != members[i].0@,
    ensures
        members_view(members).contains_key(members[i].0@),
        members_view(members)[members[i].0@] == members[i].1@,
    decreases members.len(),
{
    if i < members.len() - 1 {
        let before = members.drop_last();
        assert forall|j: int| i < j < before.len() implies (#[trigger] before[j]).0@
            != before[i].0@ by {
            assert(members[j].0@ != members[i].0@);
        }
        law_later_member_counts(before, i);
        assert(members[members.len() - 1].0@ != members[i].0@);
    }
}

/// An object with a single member has that member and no other.
pub proof fn law_single_has_one_member(name: Seq<char>, value: JsonView, other: Seq<char>)
    ensures
        single(name, value).field(other) == (if other == name {
            Some(value)
        } else {
            None
        }),
{
}

} // verus!
