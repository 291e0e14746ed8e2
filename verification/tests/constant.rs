//! Finding references to constants, and the values of constants.

use config_docs::constant::{
    find_constant_references, read_additional_crates, resolve_constant_in_index,
    resolve_constant_reference, strip_type_suffix,
};
use config_docs::json::{get_json_object, parse_json, Json};

fn json(text: &str) -> Json {
    parse_json(text).unwrap()
}

fn members(value: &Json) -> &Vec<(String, Json)> {
    get_json_object(value, &[]).unwrap()
}

#[test]
fn test_find_constant_references() {
    // Test finding constant references in text
    let text1 = "This field uses [`DEFAULT_VALUE`] as default.";
    let constants1 = find_constant_references(text1);
    assert_eq!(constants1.len(), 1);
    assert!(constants1.contains("DEFAULT_VALUE"));

    // Test multiple constants
    let text2 = "Uses [`CONST_A`] and [`CONST_B`] values.";
    let constants2 = find_constant_references(text2);
    assert_eq!(constants2.len(), 2);
    assert!(constants2.contains("CONST_A"));
    assert!(constants2.contains("CONST_B"));

    // Test no constants
    let text3 = "This text has no constant references.";
    let constants3 = find_constant_references(text3);
    assert_eq!(constants3.len(), 0);

    // Test mixed content
    let text4 =
        "Field uses [`MY_CONSTANT`] and links to [`SomeStruct::field`] but not `lowercase`.";
    let constants4 = find_constant_references(text4);
    assert_eq!(constants4.len(), 1);
    assert!(constants4.contains("MY_CONSTANT"));
    assert!(!constants4.contains("SomeStruct::field")); // Should not match struct::field patterns
    assert!(!constants4.contains("lowercase")); // Should not match lowercase
}

#[test]
fn test_resolve_constant_reference() {
    // Create mock rustdoc index with a constant
    let mock_index = json(r##"{
        "const_1": {
            "name": "TEST_CONSTANT",
            "inner": {
                "constant": {
                    "expr": "42",
                    "type": "u32"
                }
            }
        },
        "const_2": {
            "name": "STRING_CONST",
            "inner": {
                "constant": {
                    "value": "\"hello\"",
                    "type": "&str"
                }
            }
        },
        "not_const": {
            "name": "NotAConstant",
            "inner": {
                "function": {}
            }
        }
    }"##);

    let index = members(&mock_index);

    // Test resolving existing constant with expr field
    let result1 = resolve_constant_reference("TEST_CONSTANT", index, &vec![]);
    assert_eq!(result1, Some("42".to_string()));

    // Test resolving existing constant with value field
    let result2 = resolve_constant_reference("STRING_CONST", index, &vec![]);
    assert_eq!(result2, Some("\"hello\"".to_string()));

    // Test resolving non-existent constant
    let result3 = resolve_constant_reference("NONEXISTENT", index, &vec![]);
    assert_eq!(result3, None);

    // Test resolving non-constant item
    let result4 = resolve_constant_reference("NotAConstant", index, &vec![]);
    assert_eq!(result4, None);
}

#[test]
fn test_resolve_computed_constant() {
    // Test computed constants that have "_" in expr and actual value in value field
    let mock_index = json(r##"{
        "computed_const": {
            "name": "COMPUTED_CONSTANT",
            "inner": {
                "constant": {
                    "const": {
                        "expr": "_",
                        "value": "402_653_196u32",
                        "is_literal": false
                    },
                    "type": {
                        "primitive": "u32"
                    }
                }
            }
        },
        "literal_const": {
            "name": "LITERAL_CONSTANT",
            "inner": {
                "constant": {
                    "const": {
                        "expr": "100",
                        "value": "100u32",
                        "is_literal": true
                    },
                    "type": {
                        "primitive": "u32"
                    }
                }
            }
        }
    }"##);

    let index = members(&mock_index);

    // Test resolving computed constant - should get the value without type suffix
    let result1 = resolve_constant_in_index("COMPUTED_CONSTANT", index);
    assert_eq!(result1, Some("402_653_196".to_string()));

    // Test resolving literal constant - should get expr which is clean
    let result2 = resolve_constant_in_index("LITERAL_CONSTANT", index);
    assert_eq!(result2, Some("100".to_string()));
}

#[test]
fn reference_is_found_wherever_it_stands() {
    for (start, end) in [("", ""), ("a", "b"), ("[`", "`]"), ("[`X`]", "[`Y`]"), ("é", "語")] {
        let text = format!("{}[`MY_CONST_1`]{}", start, end);
        assert!(find_constant_references(&text).contains("MY_CONST_1"), "{}", text);
    }
}

#[test]
fn only_names_of_constants_are_references() {
    for text in ["[``]", "[`1A`]", "[`a`]", "[`A b`]", "[`A`", "`A`", "[A]", "[`Ä`]", "[`A::B`]"] {
        assert_eq!(find_constant_references(text).len(), 0, "{}", text);
    }
    assert!(find_constant_references("[`_`]").contains("_"));
    assert!(find_constant_references("[`A0_9`]").contains("A0_9"));
    assert_eq!(find_constant_references("[`A`] [`A`]").len(), 1);
}

#[test]
fn type_suffix_is_stripped_behind_a_literal() {
    for (value, expected) in [
        ("50u64", "50"),
        ("402_653_196u32", "402_653_196"),
        ("-1.5f64", "-1.5"),
        ("1u8", "1"),
        ("1u16", "1"),
        ("1u128", "1"),
        ("1usize", "1"),
        ("1i8", "1"),
        ("1i16", "1"),
        ("1i32", "1"),
        ("1i64", "1"),
        ("1i128", "1"),
        ("1isize", "1"),
        ("1f32", "1"),
        ("\"x\"u8", "\"x\""),
        ("0xffu8", "0xffu8"),
        ("u8", "u8"),
        ("x_u8", "x_u8"),
        ("\"50u64\"", "\"50u64\""),
        ("50", "50"),
        ("", ""),
    ] {
        let stripped = strip_type_suffix(value);
        assert_eq!(stripped, expected);
        assert_eq!(strip_type_suffix(&stripped), stripped);
    }
}

#[test]
fn value_of_a_nested_constant() {
    let index = json(
        r#"{
        "a": {"name": "A", "inner": {"constant": {"const": {"expr": "7", "value": "7u8", "is_literal": false}}}},
        "b": {"name": "B", "inner": {"constant": {"const": {"expr": "X + 1"}}}},
        "c": {"name": "C", "inner": {"constant": {"const": {"expr": "_"}, "value": "3i32"}}},
        "d": {"name": "D", "inner": {"constant": {"const": {"expr": "_", "is_literal": true}, "expr": "_", "type": "u8"}}},
        "e": {"name": "E", "inner": {"constant": {"type": {"primitive": "u8"}}}},
        "f": {"name": "F", "inner": {"constant": {"const": "9", "expr": "8"}}}
    }"#,
    );
    for (name, expected) in [
        ("A", Some("7")),
        ("B", Some("X + 1")),
        ("C", Some("3")),
        ("D", Some("u8")),
        ("E", None),
        ("F", Some("8")),
        ("G", None),
    ] {
        assert_eq!(
            resolve_constant_in_index(name, members(&index)).as_deref(),
            expected,
            "{}",
            name
        );
    }
}

#[test]
fn first_item_with_a_value_gives_it() {
    let index = json(
        r#"{
        "1": {"name": "A", "inner": {"function": {}}},
        "2": {"name": "A", "inner": {"constant": {}}},
        "3": {"name": "A", "inner": {"constant": {"expr": "1"}}},
        "4": {"name": "A", "inner": {"constant": {"expr": "2"}}}
    }"#,
    );
    assert_eq!(
        resolve_constant_in_index("A", members(&index)),
        Some("1".to_string())
    );
}

#[test]
fn index_comes_before_other_crates() {
    let index = json(r#"{"1": {"name": "A", "inner": {"constant": {"expr": "own"}}}}"#);
    let texts = vec![
        "no JSON".to_string(),
        r#"{"no_index": 1}"#.to_string(),
        r#"{"index": {"1": {"name": "B", "inner": {"constant": {"value": "5u8"}}}}}"#.to_string(),
        r#"{"index": {
            "1": {"name": "A", "inner": {"constant": {"expr": "other"}}},
            "2": {"name": "B", "inner": {"constant": {"expr": "later"}}}
        }}"#
        .to_string(),
    ];
    let crates = read_additional_crates(&texts);
    assert_eq!(crates.len(), 3);
    let index = members(&index);
    assert_eq!(
        resolve_constant_reference("A", index, &crates),
        Some("own".to_string())
    );
    assert_eq!(
        resolve_constant_reference("B", index, &crates),
        Some("5".to_string())
    );
    assert_eq!(resolve_constant_reference("C", index, &crates), None);
    assert_eq!(resolve_constant_reference("B", index, &vec![]), None);
}
