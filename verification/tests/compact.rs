use browser_network::{format_console_arg, from_value, to_value, Json};

fn object(members: Vec<(&str, Json)>) -> Json {
    Json::Object(members.into_iter().map(|(name, value)| (name.to_string(), value)).collect())
}

#[test]
fn text_of_scalars() {
    assert_eq!(Json::Null.to_text(), "null");
    assert_eq!(Json::Bool(true).to_text(), "true");
    assert_eq!(Json::Bool(false).to_text(), "false");
    assert_eq!(Json::from_integer(-12).to_text(), "-12");
    assert_eq!(Json::from_text("a\"\n\u{1}\u{e9}").to_text(), "\"a\\\"\\n\\u0001\u{e9}\"");
}

#[test]
fn text_of_arrays() {
    assert_eq!(Json::Array(vec![]).to_text(), "[]");
    assert_eq!(Json::Array(vec![Json::Null]).to_text(), "[null]");
    let nested = Json::Array(vec![
        Json::from_integer(1),
        Json::Array(vec![Json::from_text("a,b"), Json::Array(vec![])]),
        Json::Bool(true),
    ]);
    assert_eq!(nested.to_text(), "[1,[\"a,b\",[]],true]");
}

#[test]
fn text_of_objects_is_sorted_by_name() {
    assert_eq!(object(vec![]).to_text(), "{}");
    let value = object(vec![
        ("b", Json::Null),
        ("\u{10000}", Json::from_integer(7)),
        ("ab", Json::Array(vec![object(vec![("y", Json::Null), ("x", Json::Null)])])),
        ("\u{ffff}", Json::from_integer(6)),
        ("", Json::Bool(false)),
        ("a", Json::from_integer(1)),
        ("B", Json::from_integer(2)),
        ("\u{e9}\"", Json::from_integer(5)),
    ]);
    assert_eq!(
        value.to_text(),
        "{\"\":false,\"B\":2,\"a\":1,\"ab\":[{\"x\":null,\"y\":null}],\"b\":null,\
         \"\u{e9}\\\"\":5,\"\u{ffff}\":6,\"\u{10000}\":7}"
    );
}

#[test]
fn text_of_an_object_has_a_name_once() {
    let value = object(vec![("a", Json::from_integer(1)), ("a", Json::from_integer(2))]);
    assert_eq!(value.to_text(), "{\"a\":2}");
}

#[test]
fn text_survives_the_exchange() {
    let value = object(vec![
        ("b", Json::Array(vec![Json::from_text("x"), Json::Bool(true)])),
        ("a", object(vec![("c", Json::from_integer(3))])),
    ]);
    assert_eq!(from_value(&to_value(&value)).to_text(), value.to_text());
    assert_eq!(to_value(&value).to_string(), value.to_text());
}

#[test]
fn console_argument_shows_the_text_of_its_value() {
    let array = Json::Array(vec![Json::from_integer(1), Json::from_text("two"), Json::Null]);
    let arg = object(vec![("type", Json::from_text("object")), ("value", array)]);
    assert_eq!(format_console_arg(&arg), Some("[1,\"two\",null]".to_string()));
    let inner = object(vec![("z", Json::Bool(false)), ("k", Json::Array(vec![]))]);
    let arg = object(vec![("type", Json::from_text("object")), ("value", inner)]);
    assert_eq!(format_console_arg(&arg), Some("{\"k\":[],\"z\":false}".to_string()));
}
