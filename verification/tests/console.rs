use browser_network::{format_console_arg, format_console_args, from_value, to_value, Json};

fn text(s: &str) -> Json {
    Json::from_text(s)
}

fn number(n: i64) -> Json {
    Json::from_integer(n)
}

fn object(members: Vec<(&str, Json)>) -> Json {
    Json::Object(members.into_iter().map(|(k, v)| (k.to_string(), v)).collect())
}

// -- format_console_arg: primitives --

#[test]
fn test_format_arg_string() {
    let arg = object(vec![("type", text("string")), ("value", text("hello"))]);
    assert_eq!(format_console_arg(&arg), Some("hello".to_string()));
}

#[test]
fn test_format_arg_number() {
    let arg = object(vec![("type", text("number")), ("value", number(42))]);
    assert_eq!(format_console_arg(&arg), Some("42".to_string()));
}

#[test]
fn test_format_arg_null() {
    let arg = object(vec![
        ("type", text("object")),
        ("subtype", text("null")),
        ("value", Json::Null),
    ]);
    assert_eq!(format_console_arg(&arg), Some("null".to_string()));
}

#[test]
fn test_format_arg_undefined() {
    let arg = object(vec![("type", text("undefined"))]);
    assert_eq!(format_console_arg(&arg), Some("undefined".to_string()));
}

// -- format_console_arg: objects with preview --

fn property(name: &str, kind: &str, value: &str) -> Json {
    object(vec![("name", text(name)), ("type", text(kind)), ("value", text(value))])
}

#[test]
fn test_format_arg_object_preview() {
    let arg = object(vec![
        ("type", text("object")),
        (
            "preview",
            object(vec![
                (
                    "properties",
                    Json::Array(vec![
                        property("userId", "string", "abc123"),
                        property("count", "number", "42"),
                    ]),
                ),
                ("overflow", Json::Bool(false)),
            ]),
        ),
    ]);
    assert_eq!(
        format_console_arg(&arg),
        Some("{userId: \"abc123\", count: 42}".to_string())
    );
}

#[test]
fn test_format_arg_object_preview_overflow() {
    let arg = object(vec![
        ("type", text("object")),
        (
            "preview",
            object(vec![
                ("properties", Json::Array(vec![property("a", "number", "1")])),
                ("overflow", Json::Bool(true)),
            ]),
        ),
    ]);
    assert_eq!(format_console_arg(&arg), Some("{a: 1, ...}".to_string()));
}

// -- format_console_arg: arrays with preview --

#[test]
fn test_format_arg_array_preview() {
    let arg = object(vec![
        ("type", text("object")),
        ("subtype", text("array")),
        (
            "preview",
            object(vec![
                ("subtype", text("array")),
                (
                    "properties",
                    Json::Array(vec![
                        property("0", "number", "1"),
                        property("1", "number", "2"),
                        property("2", "number", "3"),
                    ]),
                ),
                ("overflow", Json::Bool(false)),
            ]),
        ),
    ]);
    assert_eq!(format_console_arg(&arg), Some("[1, 2, 3]".to_string()));
}

// -- format_console_arg: map/set use description --

#[test]
fn test_format_arg_map_uses_description() {
    let arg = object(vec![
        ("type", text("object")),
        ("subtype", text("map")),
        ("description", text("Map(1)")),
        (
            "preview",
            object(vec![
                ("subtype", text("map")),
                ("properties", Json::Array(vec![property("size", "number", "1")])),
            ]),
        ),
    ]);
    assert_eq!(format_console_arg(&arg), Some("Map(1)".to_string()));
}

// -- format_console_arg: fallback --

#[test]
fn test_format_arg_description_fallback() {
    let arg = object(vec![("type", text("object")), ("description", text("RegExp"))]);
    assert_eq!(format_console_arg(&arg), Some("RegExp".to_string()));
}

#[test]
fn test_format_arg_no_value_no_preview_no_description() {
    let arg = object(vec![("type", text("object"))]);
    assert_eq!(format_console_arg(&arg), None);
}

// -- format_console_args --

#[test]
fn test_format_console_args_join() {
    let args = vec![
        object(vec![("type", text("string")), ("value", text("user"))]),
        object(vec![
            ("type", text("object")),
            (
                "preview",
                object(vec![
                    ("properties", Json::Array(vec![property("id", "number", "1")])),
                    ("overflow", Json::Bool(false)),
                ]),
            ),
        ]),
    ];
    assert_eq!(format_console_args(&args), "user {id: 1}");
}

#[test]
fn test_format_console_args_filters_none() {
    // An arg that returns None should be skipped, not produce empty string
    let args = vec![
        object(vec![("type", text("string")), ("value", text("before"))]),
        object(vec![("type", text("object"))]), // no value, preview, or description
        object(vec![("type", text("string")), ("value", text("after"))]),
    ];
    assert_eq!(format_console_args(&args), "before after");
}

// -- edges --

#[test]
fn arg_values_are_written_as_json() {
    let value = |v: Json| format_console_arg(&object(vec![("value", v)]));
    assert_eq!(value(Json::Null), Some("null".to_string()));
    assert_eq!(value(Json::Bool(true)), Some("true".to_string()));
    assert_eq!(value(Json::Bool(false)), Some("false".to_string()));
    assert_eq!(value(number(-7)), Some("-7".to_string()));
    assert_eq!(value(number(i64::MIN)), Some("-9223372036854775808".to_string()));
    assert_eq!(
        value(Json::Number(serde_json::Number::from(u64::MAX))),
        Some("18446744073709551615".to_string())
    );
    assert_eq!(
        value(Json::Number(serde_json::Number::from_f64(1.5).unwrap())),
        Some("1.5".to_string())
    );
    assert_eq!(
        value(Json::Array(vec![number(1), text("a\"b"), Json::Null, Json::Array(vec![])])),
        Some("[1,\"a\\\"b\",null,[]]".to_string())
    );
    assert_eq!(
        value(object(vec![("b", number(1)), ("a", object(vec![])), ("b", Json::Bool(true))])),
        Some("{\"a\":{},\"b\":true}".to_string())
    );
    assert_eq!(value(text("as \"is\"")), Some("as \"is\"".to_string()));
}

#[test]
fn arg_text_agrees_with_serde_json() {
    let json = object(vec![
        ("k\n", Json::Array(vec![number(3), text("\u{1}\u{fc}"), Json::Bool(false)])),
        ("a", Json::Number(serde_json::Number::from_f64(0.1).unwrap())),
    ]);
    let value: serde_json::Value = serde_json::from_str(&json.to_text()).unwrap();
    assert_eq!(value.to_string(), json.to_text());
    assert_eq!(value["k\n"][1], "\u{1}\u{fc}");
    assert_eq!(to_value(&json), value);
    assert_eq!(json.clone().to_text(), json.to_text());
}

#[test]
fn values_come_back_from_serde_json() {
    let written = "{\"a\":[1,-2,1.25,true,null,\"s\",{}],\"b\":{\"c\":[]}}";
    let value: serde_json::Value = serde_json::from_str(written).unwrap();
    let json = from_value(&value);
    assert_eq!(
        json,
        object(vec![
            (
                "a",
                Json::Array(vec![
                    number(1),
                    number(-2),
                    Json::Number(serde_json::Number::from_f64(1.25).unwrap()),
                    Json::Bool(true),
                    Json::Null,
                    text("s"),
                    object(vec![]),
                ])
            ),
            ("b", object(vec![("c", Json::Array(vec![]))])),
        ])
    );
    assert_eq!(to_value(&json), value);
    assert_eq!(json.to_text(), written);
}

#[test]
fn later_member_counts() {
    let json = object(vec![("k", number(1)), ("other", Json::Null), ("k", number(2))]);
    assert_eq!(json.get("k"), Some(&number(2)));
    assert_eq!(json.get("missing"), None);
    assert_eq!(json.to_text(), "{\"k\":2,\"other\":null}");
    assert_eq!(number(1).get("k"), None);
}

#[test]
fn accessors_ask_for_the_kind() {
    assert_eq!(text("s").as_str(), Some("s"));
    assert_eq!(Json::Null.as_str(), None);
    assert_eq!(Json::Bool(true).as_bool(), Some(true));
    assert_eq!(text("true").as_bool(), None);
    assert_eq!(Json::Array(vec![Json::Null]).as_array().map(|items| items.len()), Some(1));
    assert_eq!(object(vec![]).as_array(), None);
    assert_eq!(object(vec![("a", text("b"))]).get_str("a"), Some("b"));
    assert_eq!(object(vec![("a", Json::Null)]).get_str("a"), None);
}

#[test]
fn arg_that_is_no_object_has_no_text() {
    assert_eq!(format_console_arg(&Json::Null), None);
    assert_eq!(format_console_arg(&Json::Array(vec![text("x")])), None);
    assert_eq!(format_console_arg(&text("x")), None);
}

#[test]
fn arg_priority() {
    let preview = || object(vec![("properties", Json::Array(vec![property("a", "number", "1")]))]);
    let all = object(vec![
        ("value", number(1)),
        ("preview", preview()),
        ("description", text("d")),
    ]);
    assert_eq!(format_console_arg(&all), Some("1".to_string()));
    let no_value = object(vec![("preview", preview()), ("description", text("d"))]);
    assert_eq!(format_console_arg(&no_value), Some("{a: 1}".to_string()));
    let null = object(vec![("subtype", text("null")), ("value", number(1))]);
    assert_eq!(format_console_arg(&null), Some("null".to_string()));
    let undefined = object(vec![("type", text("undefined")), ("subtype", text("null"))]);
    assert_eq!(format_console_arg(&undefined), Some("undefined".to_string()));
}

#[test]
fn arg_preview_without_properties_falls_back() {
    let arg = object(vec![
        ("preview", object(vec![("properties", text("none"))])),
        ("description", text("d")),
    ]);
    assert_eq!(format_console_arg(&arg), Some("d".to_string()));
}

#[test]
fn arg_keyed_collections_use_the_description() {
    for subtype in ["map", "set", "weakmap", "weakset"] {
        let preview = object(vec![
            ("subtype", text(subtype)),
            ("properties", Json::Array(vec![property("size", "number", "1")])),
        ]);
        let arg = object(vec![("preview", preview.clone()), ("description", text("D"))]);
        assert_eq!(format_console_arg(&arg), Some("D".to_string()));
        assert_eq!(format_console_arg(&object(vec![("preview", preview)])), None);
    }
}

#[test]
fn arg_properties_at_their_edges() {
    let preview = |properties: Vec<Json>, overflow: Json| {
        object(vec![(
            "preview",
            object(vec![("properties", Json::Array(properties)), ("overflow", overflow)]),
        )])
    };
    assert_eq!(
        format_console_arg(&preview(vec![], Json::Bool(false))),
        Some("{}".to_string())
    );
    assert_eq!(
        format_console_arg(&preview(vec![], Json::Bool(true))),
        Some("{, ...}".to_string())
    );
    assert_eq!(
        format_console_arg(&preview(
            vec![
                object(vec![("name", text("skipped"))]),
                object(vec![("value", text("v"))]),
                object(vec![("name", text("n")), ("value", number(1))]),
            ],
            text("yes")
        )),
        Some("{?: v}".to_string())
    );
}

#[test]
fn arg_array_by_its_own_subtype() {
    let arg = object(vec![
        ("subtype", text("array")),
        (
            "preview",
            object(vec![(
                "properties",
                Json::Array(vec![property("0", "string", "s")]),
            )]),
        ),
    ]);
    assert_eq!(format_console_arg(&arg), Some("[\"s\"]".to_string()));
}

#[test]
fn args_without_texts_give_an_empty_line() {
    assert_eq!(format_console_args(&[]), "");
    assert_eq!(format_console_args(&[Json::Null, Json::Null]), "");
}
