//! Console arguments: a remote object, as the debugging protocol reports it, made
//! readable.

use crate::compact::json_text;
use crate::json::{items_view, lemma_items_view, Json, JsonView};
use crate::text::{
    concat2, concat3, join_strings, joined, law_joined_in_a_row, optional_str, optional_text,
    same_text, texts,
};
use vstd::prelude::*;

verus! {

/// The texts that are there, in order.
pub open spec fn present(list: Seq<Option<Seq<char>>>) -> Seq<Seq<char>>
    decreases list.len(),
{
    if list.len() == 0 {
        Seq::empty()
    } else {
        match list.last() {
            Some(text) => present(list.drop_last()).push(text),
            None => present(list.drop_last()),
        }
    }
}

/// One property of a preview. A property without a value has no text; a string
/// is quoted; outside arrays (`bare` is false) the name goes before the value.
pub open spec fn property_text(property: JsonView, bare: bool) -> Option<Seq<char>> {
    match property.str_field("value"@) {
        None => None,
        Some(value) => {
            let shown = if property.str_field("type"@) == Some("string"@) {
                "\""@ + value + "\""@
            } else {
                value
            };
            if bare {
                Some(shown)
            } else {
                let name = match property.str_field("name"@) {
                    Some(given) => given,
                    None => "?"@,
                };
                Some(name + ": "@ + shown)
            }
        },
    }
}

/// The properties of a preview, in brackets for an array and in braces for an
/// object, with an ellipsis where the preview left some out.
pub open spec fn preview_text(properties: Seq<JsonView>, is_array: bool, overflow: bool) -> Seq<
    char,
> {
    let listed = joined(
        present(properties.map_values(|p: JsonView| property_text(p, is_array))),
        ", "@,
    );
    let inner = if overflow {
        listed + ", ..."@
    } else {
        listed
    };
    if is_array {
        "["@ + inner + "]"@
    } else {
        "{"@ + inner + "}"@
    }
}

/// Whether a preview is of a collection that its description says more about than
/// its properties.
pub open spec fn is_keyed_collection(subtype: Option<Seq<char>>) -> bool {
    ||| subtype == Some("map"@)
    ||| subtype == Some("set"@)
    ||| subtype == Some("weakmap"@)
    ||| subtype == Some("weakset"@)
}

/// What the preview of an argument shows, if it shows anything.
pub open spec fn previewed(arg: JsonView) -> Option<Seq<char>> {
    match arg.field("preview"@) {
        None => None,
        Some(preview) => {
            let subtype = preview.str_field("subtype"@);
            match preview.field("properties"@) {
                Some(JsonView::Array(properties)) => if is_keyed_collection(subtype) {
                    None
                } else {
                    Some(
                        preview_text(
                            properties,
                            arg.str_field("subtype"@) == Some("array"@) || subtype == Some(
                                "array"@,
                            ),
                            preview.field("overflow"@) == Some(JsonView::Bool(true)),
                        ),
                    )
                },
                _ => None,
            }
        },
    }
}

/// The readable text of a console argument: `undefined` and `null` by name, then
/// its value, then its preview, then its description.
pub open spec fn console_arg_text(arg: JsonView) -> Option<Seq<char>> {
    if arg.str_field("type"@) == Some("undefined"@) {
        Some("undefined"@)
    } else if arg.str_field("subtype"@) == Some("null"@) {
        Some("null"@)
    } else {
        match arg.field("value"@) {
            Some(JsonView::Str(s)) => Some(s),
            Some(value) => Some(json_text(value)),
            None => match previewed(arg) {
                Some(text) => Some(text),
                None => arg.str_field("description"@),
            },
        }
    }
}

/// The readable text of a list of console arguments: those that have a text, with
/// a space between neighbours.
pub open spec fn console_args_text(args: Seq<JsonView>) -> Seq<char> {
    joined(present(args.map_values(|arg: JsonView| console_arg_text(arg))), " "@)
}

/// Whether an optional text is a given one.
fn is_text(text: Option<&str>, expected: &str) -> (same: bool)
    ensures
        same == (optional_str(text) == Some(expected@)),
{
    match text {
        Some(s) => same_text(s, expected),
        None => false,
    }
}

/// An owned copy of an optional text.
fn owned(text: Option<&str>) -> (copy: Option<String>)
    ensures
        optional_text(copy) == optional_str(text),
{
    match text {
        Some(s) => Some(s.to_string()),
        None => None,
    }
}

/// Formats one property of a preview.
fn format_property(property: &Json, bare: bool) -> (text: Option<String>)
    ensures
        optional_text(text) == property_text(property@, bare),
{
    match property.get_str("value") {
        None => None,
        Some(value) => {
            let shown = if is_text(property.get_str("type"), "string") {
                concat3("\"", value, "\"")
            } else {
                value.to_string()
            };
            if bare {
                Some(shown)
            } else {
                let name = match property.get_str("name") {
                    Some(given) => given,
                    None => "?",
                };
                Some(concat3(name, ": ", shown.as_str()))
            }
        },
    }
}

/// Formats the properties of a preview.
fn format_properties(properties: &Vec<Json>, is_array: bool, overflow: bool) -> (text: String)
    ensures
        text@ == preview_text(items_view(properties@), is_array, overflow),
{
    let ghost all = items_view(properties@).map_values(|p: JsonView| property_text(p, is_array));
    proof {
        lemma_items_view(properties@);
    }
    let mut parts: Vec<String> = Vec::new();
    let mut i: usize = 0;
    assert(texts(parts@) =~= present(all.take(0)));
    while i < properties.len()
        invariant
            all == items_view(properties@).map_values(
                |p: JsonView| property_text(p, is_array),
            ),
            all.len() == properties@.len(),
            forall|j: int|
                0 <= j < properties@.len() ==> #[trigger] items_view(properties@)[j]
                    == properties@[j]@,
            i <= properties@.len(),
            texts(parts@) == present(all.take(i as int)),
        decreases properties@.len() - i,
    {
        assert(all.take(i + 1).drop_last() =~= all.take(i as int));
        assert(all[i as int] == property_text(properties@[i as int]@, is_array));
        let ghost before = texts(parts@);
        match format_property(&properties[i], is_array) {
            Some(part) => {
                parts.push(part);
                assert(texts(parts@) =~= before.push(part@));
            },
            None => {},
        }
        i = i + 1;
    }
    assert(all.take(all.len() as int) =~= all);
    let listed = join_strings(parts.as_slice(), ", ");
    let inner = if overflow {
        concat2(listed.as_str(), ", ...")
    } else {
        listed
    };
    if is_array {
        concat3("[", inner.as_str(), "]")
    } else {
        concat3("{", inner.as_str(), "}")
    }
}

/// Formats the preview of an argument, where it has one that is shown.
fn format_preview(arg: &Json) -> (text: Option<String>)
    ensures
        optional_text(text) == previewed(arg@),
{
    match arg.get("preview") {
        None => None,
        Some(preview) => {
            let subtype = preview.get_str("subtype");
            if is_text(subtype, "map") || is_text(subtype, "set") || is_text(subtype, "weakmap")
                || is_text(subtype, "weakset") {
                return None;
            }
            let is_array = is_text(arg.get_str("subtype"), "array") || is_text(subtype, "array");
            match preview.get("properties") {
                Some(Json::Array(properties)) => {
                    let overflow = match preview.get("overflow") {
                        Some(Json::Bool(b)) => *b,
                        _ => false,
                    };
                    Some(format_properties(properties, is_array, overflow))
                },
                _ => None,
            }
        },
    }
}

/// Formats a single console argument into a human-readable string.
/// Priority: value, preview, description.
pub fn format_console_arg(arg: &Json) -> (text: Option<String>)
    ensures
        optional_text(text) == console_arg_text(arg@),
{
    if is_text(arg.get_str("type"), "undefined") {
        return Some("undefined".to_string());
    }
    if is_text(arg.get_str("subtype"), "null") {
        return Some("null".to_string());
    }
    match arg.get("value") {
        Some(Json::Str(s)) => Some(s.clone()),
        Some(value) => Some(value.to_text()),
        None => match format_preview(arg) {
            Some(text) => Some(text),
            None => owned(arg.get_str("description")),
        },
    }
}

/// Formats a list of console arguments into a single space-separated string.
pub fn format_console_args(args: &[Json]) -> (line: String)
    ensures
        line@ == console_args_text(items_view(args@)),
{
    let ghost all = items_view(args@).map_values(|arg: JsonView| console_arg_text(arg));
    proof {
        lemma_items_view(args@);
    }
    let mut parts: Vec<String> = Vec::new();
    let mut i: usize = 0;
    assert(texts(parts@) =~= present(all.take(0)));
    while i < args.len()
        invariant
            all == items_view(args@).map_values(|arg: JsonView| console_arg_text(arg)),
            all.len() == args@.len(),
            forall|j: int|
                0 <= j < args@.len() ==> #[trigger] items_view(args@)[j] == args@[j]@,
            i <= args@.len(),
            texts(parts@) == present(all.take(i as int)),
        decreases args@.len() - i,
    {
        assert(all.take(i + 1).drop_last() =~= all.take(i as int));
        assert(all[i as int] == console_arg_text(args@[i as int]@));
        let ghost before = texts(parts@);
        match format_console_arg(&args[i]) {
            Some(part) => {
                parts.push(part);
                assert(texts(parts@) =~= before.push(part@));
            },
            None => {},
        }
        i = i + 1;
    }
    assert(all.take(all.len() as int) =~= all);
    join_strings(parts.as_slice(), " ")
}

/// The value comes first: arguments that agree on type, subtype and value have
/// the same text, whatever their previews and descriptions are.
pub proof fn law_value_comes_first(a: JsonView, b: JsonView)
    requires
        a.str_field("type"@) == b.str_field("type"@),
        a.str_field("subtype"@) == b.str_field("subtype"@),
        a.field("value"@) is Some,
        a.field("value"@) == b.field("value"@),
    ensures
        console_arg_text(a) is Some,
        console_arg_text(a) == console_arg_text(b),
{
}

/// The preview comes before the description: arguments without a value that agree
/// on type, subtype and a preview that is shown have the same text, whatever their
/// descriptions are.
pub proof fn law_preview_comes_second(a: JsonView, b: JsonView)
    requires
        a.str_field("type"@) == b.str_field("type"@),
        a.str_field("subtype"@) == b.str_field("subtype"@),
        a.field("value"@) is None,
        b.field("value"@) is None,
        a.field("preview"@) == b.field("preview"@),
        previewed(a) is Some,
    ensures
        console_arg_text(a) is Some,
        console_arg_text(a) == console_arg_text(b),
{
}

/// The description comes last: it is the text of an argument that is neither
/// `undefined` nor `null` and has no value and no preview that is shown. Without
/// one such an argument has no text.
pub proof fn law_description_comes_last(arg: JsonView)
    requires
        arg.str_field("type"@) != Some("undefined"@),
        arg.str_field("subtype"@) != Some("null"@),
        arg.field("value"@) is None,
        previewed(arg) is None,
    ensures
        console_arg_text(arg) == arg.str_field("description"@),
{
}

/// The texts of two lists in a row are those of the first and then those of the
/// second. A list has a text exactly where one of its entries is one.
proof fn lemma_present_concat(a: Seq<Option<Seq<char>>>, b: Seq<Option<Seq<char>>>)
    ensures
        present(a + b) == present(a) + present(b),
        present(b).len() > 0 <==> exists|i: int| 0 <= i < b.len() && #[trigger] b[i] is Some,
    decreases b.len(),
{
    if b.len() == 0 {
        assert(a + b =~= a);
        assert(present(a) + present(b) =~= present(a));
    } else {
        let less = b.drop_last();
        assert((a + b).drop_last() =~= a + less);
        lemma_present_concat(a, less);
        assert(present(a + b) =~= present(a) + present(b));
        if present(less).len() > 0 {
            let i = choose|i: int| 0 <= i < less.len() && #[trigger] less[i] is Some;
            assert(b[i] is Some);
        }
        if b.last() is Some {
            assert(b[b.len() - 1] is Some);
        }
        if exists|i: int| 0 <= i < b.len() && #[trigger] b[i] is Some {
            let i = choose|i: int| 0 <= i < b.len() && #[trigger] b[i] is Some;
            if i < less.len() {
                assert(less[i] is Some);
            }
        }
    }
}

/// An argument without a text is skipped: the line is the same without it.
pub proof fn law_argument_without_text_is_skipped(
    before: Seq<JsonView>,
    arg: JsonView,
    after: Seq<JsonView>,
)
    requires
        console_arg_text(arg) is None,
    ensures
        console_args_text(before + seq![arg] + after) == console_args_text(before + after),
{
    let f = |a: JsonView| console_arg_text(a);
    let one: Seq<Option<Seq<char>>> = seq![None];
    assert((before + seq![arg] + after).map_values(f) =~= before.map_values(f) + one
        + after.map_values(f));
    assert((before + after).map_values(f) =~= before.map_values(f) + after.map_values(f));
    lemma_present_concat(before.map_values(f) + one, after.map_values(f));
    lemma_present_concat(before.map_values(f), one);
    lemma_present_concat(before.map_values(f), after.map_values(f));
    reveal_with_fuel(present, 2);
    assert(present(one) =~= Seq::empty());
    assert(present(before.map_values(f)) + present(one) =~= present(before.map_values(f)));
}

/// The texts that are there: one of a list of one that is there, none of a list of
/// one that is not, and those of two lists in a row, in order.
pub proof fn law_texts_that_are_there(
    text: Seq<char>,
    a: Seq<Option<Seq<char>>>,
    b: Seq<Option<Seq<char>>>,
)
    ensures
        present(Seq::empty()).len() == 0,
        present(seq![Some(text)]) == seq![text],
        present(seq![None::<Seq<char>>]).len() == 0,
        present(a + b) == present(a) + present(b),
{
    lemma_present_concat(a, b);
    reveal_with_fuel(present, 2);
    let one = seq![Some(text)];
    let none: Seq<Option<Seq<char>>> = seq![None];
    assert(one.drop_last() =~= Seq::empty());
    assert(none.drop_last() =~= Seq::empty());
    assert(present(one) =~= seq![text]);
}

/// A property has a text exactly where its value is a string, whatever its type and
/// name are. In an array the text is the value, in quotes where the type is `string`.
/// In an object the name and a colon go before that, `?` standing for a name that is
/// not given.
pub proof fn law_property_with_value_has_a_text(property: JsonView, bare: bool)
    ensures
        property_text(property, bare) is Some <==> (property matches JsonView::Object(members)
            && members.contains_key("value"@) && members["value"@] is Str),
        property.field("value"@) matches Some(JsonView::Str(value)) ==> {
            &&& property.field("type"@) == Some(JsonView::Str("string"@)) ==> property_text(
                property,
                true,
            ) == Some("\""@ + value + "\""@)
            &&& property.field("type"@) != Some(JsonView::Str("string"@)) ==> property_text(
                property,
                true,
            ) == Some(value)
        },
        property_text(property, true) matches Some(shown) ==> {
            &&& property.field("name"@) matches Some(JsonView::Str(name)) ==> property_text(
                property,
                false,
            ) == Some(name + ": "@ + shown)
            &&& !(property.field("name"@) matches Some(JsonView::Str(_))) ==> property_text(
                property,
                false,
            ) == Some("?"@ + ": "@ + shown)
        },
{
}

/// The preview of a list of properties, without what is around it, is this list of
/// texts with a comma between neighbours.
proof fn lemma_preview_text(properties: Seq<JsonView>, is_array: bool) -> (listed: Seq<char>)
    ensures
        listed == joined(
            present(properties.map_values(|p: JsonView| property_text(p, is_array))),
            ", "@,
        ),
        preview_text(properties, is_array, false).len() == listed.len() + 2,
        preview_text(properties, is_array, false).subrange(1, listed.len() as int + 1) == listed,
{
    reveal_strlit("[");
    reveal_strlit("]");
    reveal_strlit("{");
    reveal_strlit("}");
    let listed = joined(
        present(properties.map_values(|p: JsonView| property_text(p, is_array))),
        ", "@,
    );
    assert(preview_text(properties, is_array, false).subrange(1, listed.len() as int + 1)
        =~= listed);
    listed
}

/// A preview is in brackets for an array and in braces for an object. One that left
/// some properties out says so at its end, and is otherwise the same.
pub proof fn law_preview_is_bracketed(properties: Seq<JsonView>, is_array: bool)
    ensures
        ({
            let whole = preview_text(properties, is_array, false);
            let part = preview_text(properties, is_array, true);
            &&& whole.len() >= 2
            &&& whole.first() == (if is_array { '[' } else { '{' })
            &&& whole.last() == (if is_array { ']' } else { '}' })
            &&& part == whole.drop_last() + ", ..."@ + seq![whole.last()]
        }),
{
    reveal_strlit("[");
    reveal_strlit("]");
    reveal_strlit("{");
    reveal_strlit("}");
    let whole = preview_text(properties, is_array, false);
    let part = preview_text(properties, is_array, true);
    assert(part =~= whole.drop_last() + ", ..."@ + seq![whole.last()]);
}

/// A preview of one property shows the text of the property, and nothing where it has
/// none. A preview without properties shows nothing.
pub proof fn law_preview_of_one_property(property: JsonView, is_array: bool)
    ensures
        preview_text(Seq::empty(), is_array, false).len() == 2,
        property_text(property, is_array) is None ==> preview_text(
            seq![property],
            is_array,
            false,
        ).len() == 2,
        property_text(property, is_array) matches Some(text) ==> preview_text(
            seq![property],
            is_array,
            false,
        ).len() == text.len() + 2 && preview_text(seq![property], is_array, false).subrange(
            1,
            text.len() as int + 1,
        ) == text,
{
    let f = |p: JsonView| property_text(p, is_array);
    let none = Seq::<JsonView>::empty();
    lemma_preview_text(none, is_array);
    lemma_preview_text(seq![property], is_array);
    assert(none.map_values(f) =~= Seq::empty());
    assert(seq![property].map_values(f) =~= seq![property_text(property, is_array)]);
    match property_text(property, is_array) {
        Some(text) => {
            law_texts_that_are_there(text, none.map_values(f), none.map_values(f));
        },
        None => {
            law_texts_that_are_there(Seq::empty(), none.map_values(f), none.map_values(f));
        },
    }
}

/// A preview of two lists of properties in a row shows what the first shows, a comma
/// and what the second shows. Where one of them has no text, it shows what the other
/// shows.
pub proof fn law_preview_in_a_row(a: Seq<JsonView>, b: Seq<JsonView>, is_array: bool)
    ensures
        ({
            let first = preview_text(a, is_array, false);
            let second = preview_text(b, is_array, false);
            let both = preview_text(a + b, is_array, false);
            let some_a = exists|i: int|
                0 <= i < a.len() && property_text(#[trigger] a[i], is_array) is Some;
            let some_b = exists|i: int|
                0 <= i < b.len() && property_text(#[trigger] b[i], is_array) is Some;
            &&& some_a && some_b ==> both == first.drop_last() + ", "@ + second.drop_first()
            &&& !some_a ==> both == second
            &&& !some_b ==> both == first
        }),
{
    reveal_strlit("[");
    reveal_strlit("]");
    reveal_strlit("{");
    reveal_strlit("}");
    let f = |p: JsonView| property_text(p, is_array);
    let first = preview_text(a, is_array, false);
    let second = preview_text(b, is_array, false);
    let both = preview_text(a + b, is_array, false);
    let ta = a.map_values(f);
    let tb = b.map_values(f);
    lemma_some_text(a, f);
    lemma_some_text(b, f);
    assert((a + b).map_values(f) =~= ta + tb);
    lemma_present_concat(ta, tb);
    if present(ta).len() > 0 && present(tb).len() > 0 {
        law_joined_in_a_row(present(ta), present(tb), ", "@);
        assert(both =~= first.drop_last() + ", "@ + second.drop_first());
    } else if present(ta).len() == 0 {
        assert(present(ta) + present(tb) =~= present(tb));
    }
    if present(tb).len() == 0 {
        assert(present(ta) + present(tb) =~= present(ta));
    }
}

/// A list of values has a text exactly where one of them has one.
proof fn lemma_some_text(values: Seq<JsonView>, f: spec_fn(JsonView) -> Option<Seq<char>>)
    ensures
        present(values.map_values(f)).len() > 0 <==> exists|i: int|
            0 <= i < values.len() && f(#[trigger] values[i]) is Some,
{
    let list = values.map_values(f);
    lemma_present_concat(Seq::empty(), list);
    if present(list).len() > 0 {
        let i = choose|i: int| 0 <= i < list.len() && #[trigger] list[i] is Some;
        assert(f(values[i]) is Some);
    }
    if exists|i: int| 0 <= i < values.len() && f(#[trigger] values[i]) is Some {
        let i = choose|i: int| 0 <= i < values.len() && f(#[trigger] values[i]) is Some;
        assert(list[i] is Some);
    }
}

/// A preview is shown exactly where it lists properties and is not that of a map, a
/// set or a weak one. It is in brackets where the argument or the preview is called an
/// array, and has an ellipsis exactly where it says that it left something out.
pub proof fn law_preview_is_shown(arg: JsonView, preview: JsonView)
    requires
        arg.field("preview"@) == Some(preview),
    ensures
        previewed(arg) is Some <==> (preview.field("properties"@) matches Some(JsonView::Array(_))
            && !seq!["map"@, "set"@, "weakmap"@, "weakset"@].map_values(
            |name: Seq<char>| Some(JsonView::Str(name)),
        ).contains(preview.field("subtype"@))),
        previewed(arg) matches Some(text) ==> (preview.field("properties"@) matches Some(
            JsonView::Array(properties),
        ) && text == preview_text(
            properties,
            arg.field("subtype"@) == Some(JsonView::Str("array"@)) || preview.field("subtype"@)
                == Some(JsonView::Str("array"@)),
            preview.field("overflow"@) == Some(JsonView::Bool(true)),
        )),
{
    let names = seq!["map"@, "set"@, "weakmap"@, "weakset"@];
    let kinds = names.map_values(|name: Seq<char>| Some(JsonView::Str(name)));
    assert(kinds[0] == Some(JsonView::Str("map"@)) && kinds[1] == Some(JsonView::Str("set"@))
        && kinds[2] == Some(JsonView::Str("weakmap"@)) && kinds[3] == Some(
        JsonView::Str("weakset"@),
    ));
}

/// An argument without a preview shows none.
pub proof fn law_argument_without_preview_shows_none(arg: JsonView)
    requires
        arg.field("preview"@) is None,
    ensures
        previewed(arg) is None,
{
}

/// The text of an argument, by what it has: `undefined` by its type, `null` by its
/// subtype, a string value as it is, another value as JSON, then the preview where
/// one is shown, then the description where it is a string.
pub proof fn law_argument_text_by_priority(arg: JsonView)
    ensures
        ({
            let undefined = arg.field("type"@) == Some(JsonView::Str("undefined"@));
            let null = arg.field("subtype"@) == Some(JsonView::Str("null"@));
            let text = console_arg_text(arg);
            &&& undefined ==> text == Some("undefined"@)
            &&& !undefined && null ==> text == Some("null"@)
            &&& !undefined && !null ==> {
                &&& arg.field("value"@) matches Some(JsonView::Str(s)) ==> text == Some(s)
                &&& arg.field("value"@) matches Some(value) ==> !(value is Str) ==> text == Some(
                    json_text(value),
                )
                &&& arg.field("value"@) is None && previewed(arg) is Some ==> text == previewed(arg)
                &&& arg.field("value"@) is None && previewed(arg) is None ==> {
                    &&& arg.field("description"@) matches Some(JsonView::Str(d)) ==> text == Some(d)
                    &&& !(arg.field("description"@) matches Some(JsonView::Str(_))) ==> text is None
                }
            }
        }),
{
}

/// The line of one argument is its text, and is empty where it has none. The line of
/// no arguments is empty.
pub proof fn law_line_of_one_argument(arg: JsonView)
    ensures
        console_args_text(Seq::empty()).len() == 0,
        console_arg_text(arg) is None ==> console_args_text(seq![arg]).len() == 0,
        console_arg_text(arg) matches Some(text) ==> console_args_text(seq![arg]) == text,
{
    let f = |a: JsonView| console_arg_text(a);
    let none = Seq::<JsonView>::empty();
    assert(none.map_values(f) =~= Seq::empty());
    assert(seq![arg].map_values(f) =~= seq![console_arg_text(arg)]);
    match console_arg_text(arg) {
        Some(text) => {
            law_texts_that_are_there(text, none.map_values(f), none.map_values(f));
        },
        None => {
            law_texts_that_are_there(Seq::empty(), none.map_values(f), none.map_values(f));
        },
    }
}

/// The line of two lists of arguments in a row is the line of the first, a space and
/// the line of the second, where both have an argument with a text.
pub proof fn law_lines_in_a_row(a: Seq<JsonView>, b: Seq<JsonView>, i: int, j: int)
    requires
        0 <= i < a.len(),
        console_arg_text(a[i]) is Some,
        0 <= j < b.len(),
        console_arg_text(b[j]) is Some,
    ensures
        console_args_text(a + b) == console_args_text(a) + " "@ + console_args_text(b),
{
    let f = |arg: JsonView| console_arg_text(arg);
    lemma_some_text(a, f);
    lemma_some_text(b, f);
    assert(f(a[i]) is Some && f(b[j]) is Some);
    assert((a + b).map_values(f) =~= a.map_values(f) + b.map_values(f));
    lemma_present_concat(a.map_values(f), b.map_values(f));
    law_joined_in_a_row(present(a.map_values(f)), present(b.map_values(f)), " "@);
}

} // verus!
