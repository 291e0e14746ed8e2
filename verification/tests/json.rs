//! Reading JSON, and walking through it.

use config_docs::error::ExtractError;
use config_docs::json::{
    get_json_array, get_json_object, get_json_path, get_json_string, get_member, parse_json, Json,
};

/// The value of serde_json with these contents, where a number is an unsigned integer.
fn value_of(json: &Json) -> serde_json::Value {
    match json {
        Json::Null => serde_json::Value::Null,
        Json::Bool(b) => serde_json::Value::Bool(*b),
        Json::Number(n) => serde_json::Value::from(n.unwrap()),
        Json::Text(text) => serde_json::Value::from(text.as_str()),
        Json::List(items) => serde_json::Value::Array(items.iter().map(value_of).collect()),
        Json::Object(members) => serde_json::Value::Object(
            members
                .iter()
                .map(|(name, value)| (name.clone(), value_of(value)))
                .collect(),
        ),
    }
}

#[test]
fn values_are_read_in_full() {
    for text in [
        "null",
        "true",
        "false",
        "0",
        "18446744073709551615",
        "\"\"",
        r#""a\n\"é""#,
        "[]",
        "[1, [2, []], {}]",
        "{}",
        r#"{"b": {"c": [null, true]}, "a": "x"}"#,
    ] {
        let expected: serde_json::Value = serde_json::from_str(text).unwrap();
        assert_eq!(value_of(&parse_json(text).unwrap()), expected, "{}", text);
    }
}

#[test]
fn numbers_are_unsigned_integers_or_none() {
    for (text, expected) in [
        ("7", Some(7)),
        ("-7", None),
        ("1.5", None),
        ("1e3", None),
        ("18446744073709551616", None),
    ] {
        match parse_json(text) {
            Ok(Json::Number(n)) => assert_eq!(n, expected, "{}", text),
            other => panic!("{:?}", other),
        }
    }
}

#[test]
fn text_that_is_no_json_is_refused() {
    for text in ["", "{", "{'a': 1}", "[1,]", "nul", "1 2"] {
        let error = parse_json(text).unwrap_err();
        let cause = serde_json::from_str::<serde_json::Value>(text)
            .unwrap_err()
            .to_string();
        assert_eq!(error.cause(), Some(cause.clone()));
        assert_eq!(error, ExtractError::InvalidJson(cause));
        assert_eq!(error.message(), "Failed to parse rustdoc JSON output");
    }
}

#[test]
fn members_stand_in_the_order_of_the_map() {
    let text = r#"{"b": 1, "a": 2, "c": 3, "B": 4}"#;
    let json = parse_json(text).unwrap();
    let names: Vec<&str> = get_json_object(&json, &[])
        .unwrap()
        .iter()
        .map(|(name, _)| name.as_str())
        .collect();
    let map: serde_json::Map<String, serde_json::Value> = serde_json::from_str(text).unwrap();
    assert_eq!(names, map.keys().map(|name| name.as_str()).collect::<Vec<&str>>());
}

#[test]
fn paths_lead_through_objects() {
    let json = parse_json(r#"{"inner": {"struct": {"kind": "plain", "ids": [1]}}}"#).unwrap();
    assert_eq!(get_json_string(&json, &["inner", "struct", "kind"]), Some("plain"));
    assert_eq!(get_json_string(&json, &["inner", "struct"]), None);
    assert_eq!(get_json_string(&json, &["inner", "missing", "kind"]), None);
    assert_eq!(get_json_string(&json, &["inner", "struct", "kind", "more"]), None);
    assert_eq!(get_json_array(&json, &["inner", "struct", "ids"]).unwrap().len(), 1);
    assert!(get_json_array(&json, &["inner", "struct", "kind"]).is_none());
    assert_eq!(get_json_object(&json, &["inner", "struct"]).unwrap().len(), 2);
    assert!(get_json_object(&json, &["inner", "struct", "ids"]).is_none());
    assert!(get_json_path(&json, &["inner", "struct", "ids", "0"]).is_none());
    let members = get_json_object(&json, &[]).unwrap();
    assert!(get_member(members, "inner").is_some());
    assert!(get_member(members, "struct").is_none());
}

#[test]
fn paths_compose() {
    let json = parse_json(r#"{"a": {"b": {"c": "x"}}}"#).unwrap();
    let middle = get_json_path(&json, &["a", "b"]).unwrap();
    assert_eq!(get_json_string(middle, &["c"]), get_json_string(&json, &["a", "b", "c"]));
    assert_eq!(get_json_string(middle, &["c"]), Some("x"));
}
