//! The compact text of JSON values.

use crate::json::JsonView;
use crate::text::{digit, joined, law_joined_in_a_row};
use vstd::prelude::*;
use vstd::relations::{sorted_by, total_ordering};
use vstd::seq_lib::lemma_sorted_unique;

verus! {

/// A hexadecimal digit below sixteen.
pub open spec fn hex_digit(d: nat) -> char {
    if d < 10 {
        digit(d)
    } else {
        (87 + d) as char
    }
}

/// A character as it stands in a JSON string: quotes, backslashes and control
/// characters are escaped.
pub open spec fn escaped(c: char) -> Seq<char> {
    if c == '"' || c == '\\' {
        seq!['\\', c]
    } else if c == '\u{8}' {
        seq!['\\', 'b']
    } else if c == '\u{9}' {
        seq!['\\', 't']
    } else if c == '\u{a}' {
        seq!['\\', 'n']
    } else if c == '\u{c}' {
        seq!['\\', 'f']
    } else if c == '\u{d}' {
        seq!['\\', 'r']
    } else if c >= '\u{20}' {
        seq![c]
    } else {
        seq!['\\', 'u', '0', '0', hex_digit(c as nat / 16), hex_digit(c as nat % 16)]
    }
}

/// A text as a JSON string.
pub open spec fn quoted(s: Seq<char>) -> Seq<char> {
    seq!['"'] + joined(s.map_values(|c: char| escaped(c)), Seq::empty()) + seq!['"']
}

/// A list of texts as a compact JSON array of strings.
pub open spec fn quoted_list(strings: Seq<Seq<char>>) -> Seq<char> {
    seq!['['] + joined(strings.map_values(|s: Seq<char>| quoted(s)), seq![',']) + seq![']']
}

/// Whether a text comes before another in the order of their characters, or is the
/// same.
pub open spec fn in_order(a: Seq<char>, b: Seq<char>) -> bool
    decreases a.len(),
{
    if a.len() == 0 {
        true
    } else if b.len() == 0 {
        false
    } else if a.first() == b.first() {
        in_order(a.drop_first(), b.drop_first())
    } else {
        a.first() < b.first()
    }
}

/// A set of names, sorted.
pub open spec fn sorted_names(names: Set<Seq<char>>) -> Seq<Seq<char>> {
    names.to_sorted_seq(|a: Seq<char>, b: Seq<char>| in_order(a, b))
}

/// The compact text of a value: no white space around anything, and the members of
/// an object sorted by name.
pub open spec fn json_text(value: JsonView) -> Seq<char>
    decreases value, 0nat,
{
    match value {
        JsonView::Null => "null"@,
        JsonView::Bool(b) => if b {
            "true"@
        } else {
            "false"@
        },
        JsonView::Number(n) => n,
        JsonView::Str(s) => quoted(s),
        JsonView::Array(items) => seq!['['] + joined(item_texts(items), seq![',']) + seq![']'],
        JsonView::Object(members) => seq!['{'] + joined(
            member_texts(members, sorted_names(members.dom())),
            seq![','],
        ) + seq!['}'],
    }
}

/// The compact texts of the items of an array.
pub open spec fn item_texts(items: Seq<JsonView>) -> Seq<Seq<char>>
    decreases items, items.len(),
{
    if items.len() == 0 {
        Seq::empty()
    } else {
        item_texts(items.drop_last()).push(json_text(items.last()))
    }
}

/// The compact texts of the members of an object under the given names.
pub open spec fn member_texts(
    members: Map<Seq<char>, JsonView>,
    names: Seq<Seq<char>>,
) -> Seq<Seq<char>>
    decreases members, names.len(),
{
    if names.len() == 0 || !members.dom().finite() || !members.contains_key(names.last()) {
        Seq::empty()
    } else {
        member_texts(members, names.drop_last()).push(
            quoted(names.last()) + seq![':'] + json_text(members[names.last()]),
        )
    }
}

/// Two texts are in order one way or the other, and both ways only where they are the
/// same.
proof fn lemma_in_order(a: Seq<char>, b: Seq<char>)
    ensures
        in_order(a, b) || in_order(b, a),
        in_order(a, b) && in_order(b, a) ==> a == b,
    decreases a.len(),
{
    if a.len() > 0 && b.len() > 0 && a.first() == b.first() {
        lemma_in_order(a.drop_first(), b.drop_first());
        assert(a =~= seq![a.first()] + a.drop_first());
        assert(b =~= seq![b.first()] + b.drop_first());
    } else if a.len() == 0 && b.len() == 0 {
        assert(a =~= b);
    }
}

/// What is in order step by step is in order as a whole.
proof fn lemma_in_order_steps(a: Seq<char>, b: Seq<char>, c: Seq<char>)
    requires
        in_order(a, b),
        in_order(b, c),
    ensures
        in_order(a, c),
    decreases a.len(),
{
    if a.len() > 0 && a.first() == b.first() && b.first() == c.first() {
        lemma_in_order_steps(a.drop_first(), b.drop_first(), c.drop_first());
    }
}

/// The order of texts is total.
pub proof fn law_texts_are_ordered()
    ensures
        total_ordering(|a: Seq<char>, b: Seq<char>| in_order(a, b)),
{
    let order = |a: Seq<char>, b: Seq<char>| in_order(a, b);
    assert forall|a: Seq<char>, b: Seq<char>| #[trigger] order(a, b) || #[trigger] order(b, a) by {
        lemma_in_order(a, b);
    }
    assert forall|a: Seq<char>, b: Seq<char>| #[trigger]
        order(a, b) && #[trigger] order(b, a) implies a == b by {
        lemma_in_order(a, b);
    }
    assert forall|a: Seq<char>, b: Seq<char>, c: Seq<char>| #[trigger]
        order(a, b) && #[trigger] order(b, c) implies order(a, c) by {
        lemma_in_order_steps(a, b, c);
    }
}

/// Whether a list holds the names of a set, each once and in order.
pub open spec fn lists_in_order(list: Seq<Seq<char>>, names: Set<Seq<char>>) -> bool {
    &&& list.no_duplicates()
    &&& list.to_set() == names
    &&& forall|i: int, j: int| 0 <= i < j < list.len() ==> in_order(list[i], list[j])
}

/// Two lists without repetitions that hold the same hold each thing as often.
proof fn lemma_same_multiset(a: Seq<Seq<char>>, b: Seq<Seq<char>>)
    requires
        a.no_duplicates(),
        b.no_duplicates(),
        a.to_set() == b.to_set(),
    ensures
        a.to_multiset() == b.to_multiset(),
{
    broadcast use vstd::seq_lib::group_to_multiset_ensures;

    a.lemma_multiset_has_no_duplicates();
    b.lemma_multiset_has_no_duplicates();
    assert forall|x: Seq<char>| #[trigger] a.to_multiset().count(x) == b.to_multiset().count(x) by {
        assert(a.to_set().contains(x) == a.contains(x));
        assert(b.to_set().contains(x) == b.contains(x));
        assert(a.to_multiset().contains(x) <==> a.to_multiset().count(x) > 0);
        assert(b.to_multiset().contains(x) <==> b.to_multiset().count(x) > 0);
    }
    assert(a.to_multiset() =~= b.to_multiset());
}

/// A finite set as a list holds nothing twice.
proof fn lemma_set_as_list(names: Set<Seq<char>>)
    requires
        names.finite(),
    ensures
        names.to_seq().no_duplicates(),
        names.to_seq().to_set() == names,
    decreases names.len(),
{
    names.lemma_to_seq_to_set_id();
    if names.len() > 0 {
        let x = names.choose();
        let rest = names.remove(x);
        lemma_set_as_list(rest);
        assert(!rest.to_seq().contains(x)) by {
            assert(rest.to_seq().to_set().contains(x) == rest.to_seq().contains(x));
        }
    }
}

/// The names of a finite set, sorted, are all there, each once and in order.
pub proof fn law_sorted_names(names: Set<Seq<char>>)
    requires
        names.finite(),
    ensures
        lists_in_order(sorted_names(names), names),
{
    broadcast use vstd::seq_lib::group_to_multiset_ensures;

    let order = |a: Seq<char>, b: Seq<char>| in_order(a, b);
    let loose = names.to_seq();
    let list = sorted_names(names);
    law_texts_are_ordered();
    lemma_set_as_list(names);
    loose.lemma_sort_by_ensures(order);
    loose.lemma_multiset_has_no_duplicates();
    list.lemma_multiset_has_no_duplicates_conv();
    assert forall|x: Seq<char>| list.to_set().contains(x) == names.contains(x) by {
        assert(list.contains(x) <==> list.to_multiset().count(x) > 0);
        assert(loose.contains(x) <==> loose.to_multiset().count(x) > 0);
        assert(loose.to_set().contains(x) == loose.contains(x));
    }
    assert(list.to_set() =~= names);
    assert forall|i: int, j: int| 0 <= i < j < list.len() implies in_order(list[i], list[j]) by {
        assert(order(list[i], list[j]));
    }
}

/// There is one way to list names in order.
pub proof fn law_sorted_names_are_unique(list: Seq<Seq<char>>, names: Set<Seq<char>>)
    requires
        lists_in_order(list, names),
    ensures
        sorted_names(names) == list,
{
    let order = |a: Seq<char>, b: Seq<char>| in_order(a, b);
    vstd::seq_lib::seq_to_set_is_finite(list);
    law_sorted_names(names);
    law_texts_are_ordered();
    let sorted = sorted_names(names);
    lemma_same_multiset(sorted, list);
    assert(sorted_by(sorted, order));
    assert(sorted_by(list, order));
    lemma_sorted_unique(sorted, list, order);
}

/// The text of an array: the texts of its items, in their order, with commas between
/// them and brackets around them.
pub proof fn law_array_text(items: Seq<JsonView>)
    ensures
        json_text(JsonView::Array(items)) == seq!['['] + joined(
            items.map_values(|item: JsonView| json_text(item)),
            seq![','],
        ) + seq![']'],
{
    lemma_item_texts(items);
}

/// The texts of the items, one by one.
proof fn lemma_item_texts(items: Seq<JsonView>)
    ensures
        item_texts(items) == items.map_values(|item: JsonView| json_text(item)),
    decreases items.len(),
{
    if items.len() > 0 {
        lemma_item_texts(items.drop_last());
    }
    assert(item_texts(items) =~= items.map_values(|item: JsonView| json_text(item)));
}

/// The text of an object: its members by name, in the order of their names, with
/// commas between them and braces around them.
pub proof fn law_object_text(members: Map<Seq<char>, JsonView>, names: Seq<Seq<char>>)
    requires
        lists_in_order(names, members.dom()),
    ensures
        json_text(JsonView::Object(members)) == seq!['{'] + joined(
            names.map_values(
                |name: Seq<char>| quoted(name) + seq![':'] + json_text(members[name]),
            ),
            seq![','],
        ) + seq!['}'],
{
    law_sorted_names_are_unique(names, members.dom());
    vstd::seq_lib::seq_to_set_is_finite(names);
    assert forall|i: int| 0 <= i < names.len() implies members.contains_key(
        #[trigger] names[i],
    ) by {
        assert(names.to_set().contains(names[i]));
    }
    lemma_member_texts(members, names);
}

/// The texts of the members, one by one.
proof fn lemma_member_texts(members: Map<Seq<char>, JsonView>, names: Seq<Seq<char>>)
    requires
        members.dom().finite(),
        forall|i: int| 0 <= i < names.len() ==> members.contains_key(#[trigger] names[i]),
    ensures
        member_texts(members, names) == names.map_values(
            |name: Seq<char>| quoted(name) + seq![':'] + json_text(members[name]),
        ),
    decreases names.len(),
{
    let text = |name: Seq<char>| quoted(name) + seq![':'] + json_text(members[name]);
    if names.len() > 0 {
        let less = names.drop_last();
        assert forall|i: int| 0 <= i < less.len() implies members.contains_key(
            #[trigger] less[i],
        ) by {
            assert(less[i] == names[i]);
        }
        lemma_member_texts(members, less);
        assert(members.contains_key(names[names.len() - 1]));
    }
    assert(member_texts(members, names) =~= names.map_values(text));
}

/// A text without quotes, backslashes and control characters stands in a JSON
/// string as it is.
pub proof fn law_plain_text_is_quoted_as_it_is(s: Seq<char>)
    requires
        forall|i: int|
            0 <= i < s.len() ==> #[trigger] s[i] >= '\u{20}' && s[i] != '"' && s[i] != '\\',
    ensures
        quoted(s) == seq!['"'] + s + seq!['"'],
{
    lemma_plain_contents(s);
}

/// The characters of such a text, one by one, make up the text.
proof fn lemma_plain_contents(s: Seq<char>)
    requires
        forall|i: int|
            0 <= i < s.len() ==> #[trigger] s[i] >= '\u{20}' && s[i] != '"' && s[i] != '\\',
    ensures
        joined(s.map_values(|c: char| escaped(c)), Seq::empty()) == s,
    decreases s.len(),
{
    let f = |c: char| escaped(c);
    let parts = s.map_values(f);
    if s.len() == 0 {
        assert(joined(parts, Seq::empty()) =~= s);
    } else {
        let less = s.drop_last();
        assert forall|i: int| 0 <= i < less.len() implies #[trigger] less[i] >= '\u{20}' && less[i]
            != '"' && less[i] != '\\' by {
            assert(less[i] == s[i]);
        }
        lemma_plain_contents(less);
        assert(parts.drop_last() =~= less.map_values(f));
        assert(s[s.len() - 1] == s.last());
        assert(parts.last() == seq![s.last()]);
        assert(joined(parts, Seq::empty()) =~= s);
    }
}

/// The text of what is neither an array nor an object.
pub proof fn law_scalar_text(numeral: Seq<char>, text: Seq<char>)
    ensures
        json_text(JsonView::Null) == "null"@,
        json_text(JsonView::Bool(true)) == "true"@,
        json_text(JsonView::Bool(false)) == "false"@,
        json_text(JsonView::Number(numeral)) == numeral,
        json_text(JsonView::Str(text)) == quoted(text),
{
}

/// A list of texts reads as an array of strings.
pub proof fn law_list_reads_as_array(strings: Seq<Seq<char>>)
    ensures
        quoted_list(strings) == json_text(
            JsonView::Array(strings.map_values(|s: Seq<char>| JsonView::Str(s))),
        ),
{
    let items = strings.map_values(|s: Seq<char>| JsonView::Str(s));
    law_array_text(items);
    assert(items.map_values(|item: JsonView| json_text(item)) =~= strings.map_values(
        |s: Seq<char>| quoted(s),
    ));
}

/// Texts joined without glue, in two parts.
proof fn lemma_joined_plainly(a: Seq<Seq<char>>, b: Seq<Seq<char>>)
    ensures
        joined(a + b, Seq::empty()) == joined(a, Seq::empty()) + joined(b, Seq::empty()),
{
    let plain = Seq::<char>::empty();
    if a.len() == 0 {
        assert(a + b =~= b);
        assert(joined(a, plain) + joined(b, plain) =~= joined(b, plain));
    } else if b.len() == 0 {
        assert(a + b =~= a);
        assert(joined(a, plain) + joined(b, plain) =~= joined(a, plain));
    } else {
        law_joined_in_a_row(a, b, plain);
        assert(joined(a, plain) + plain =~= joined(a, plain));
    }
}

/// A text is quoted character by character: the JSON string of two texts in a row is
/// that of the first and that of the second, within one pair of quotes.
pub proof fn law_quoted_in_a_row(a: Seq<char>, b: Seq<char>)
    ensures
        quoted(Seq::empty()) == seq!['"', '"'],
        quoted(a + b) == quoted(a).drop_last() + quoted(b).drop_first(),
{
    let f = |c: char| escaped(c);
    assert(Seq::<char>::empty().map_values(f) =~= Seq::empty());
    assert(quoted(Seq::empty()) =~= seq!['"', '"']);
    assert((a + b).map_values(f) =~= a.map_values(f) + b.map_values(f));
    lemma_joined_plainly(a.map_values(f), b.map_values(f));
    assert(quoted(a + b) =~= quoted(a).drop_last() + quoted(b).drop_first());
}

/// The JSON string of one character: the character itself, but for quotes,
/// backslashes and control characters, which are escaped.
pub proof fn law_quoted_character(c: char)
    ensures
        c >= '\u{20}' && c != '"' && c != '\\' ==> quoted(seq![c]) == seq!['"', c, '"'],
        c == '"' || c == '\\' ==> quoted(seq![c]) == seq!['"', '\\', c, '"'],
        !(c >= '\u{20}') ==> quoted(seq![c]).len() == 4 || quoted(seq![c]).len() == 8,
        !(c >= '\u{20}') ==> quoted(seq![c])[1] == '\\',
{
    assert(seq![c].map_values(|c: char| escaped(c)) =~= seq![escaped(c)]);
    assert(joined(seq![escaped(c)], Seq::empty()) == escaped(c));
    if c >= '\u{20}' && c != '"' && c != '\\' {
        assert(quoted(seq![c]) =~= seq!['"', c, '"']);
    } else if c == '"' || c == '\\' {
        assert(quoted(seq![c]) =~= seq!['"', '\\', c, '"']);
    }
}

} // verus!
