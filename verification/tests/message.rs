//! What is told of the sections that are found.

use std::collections::HashMap;

use config_docs::json::{get_json_object, parse_json, Json};
use config_docs::message::{
    mapping_message, section_message, section_messages, structs_message,
};
use config_docs::names::NameMap;

fn rustdoc() -> Json {
    parse_json(
        r#"{"index": {
        "0": {"name": "Main", "inner": {"struct": {"kind": {"plain": {"fields": [1, 2, 3, 4, 5, 9, null]}}}}},
        "1": {"name": "node", "inner": {"struct_field": {"resolved_path": {"path": "Node"}}}},
        "2": {"name": "old", "docs": "@ignore", "inner": {"struct_field": {"resolved_path": {"path": "Node"}}}},
        "3": {"name": "size", "inner": {"struct_field": {"primitive": "u8"}}},
        "4": {"inner": {"struct_field": {"resolved_path": {"path": "Node"}}}},
        "5": {"name": "nodes", "inner": {"struct_field": {"resolved_path": {"path": "Vec",
            "args": {"angle_bracketed": {"args": [{"type": {"path": "Node"}}]}}}}}},
        "6": {"name": "Node", "inner": {"struct": {}}}
    }}"#,
    )
    .unwrap()
}

#[test]
fn fields_are_told_of_in_their_order() {
    assert_eq!(
        section_messages(&rustdoc(), "Main"),
        vec![
            "Mapped field 'node' -> struct 'Node' -> section '[node]'",
            "Ignoring field 'old' due to @ignore annotation",
            "Warning: Could not extract type information for field 'size', skipping",
            "Mapped field 'nodes' -> struct 'Node' -> section '[[nodes]]'",
        ]
    );
}

#[test]
fn nothing_is_told_without_a_main_struct() {
    assert!(section_messages(&rustdoc(), "Missing").is_empty());
    assert!(section_messages(&rustdoc(), "Node").is_empty());
    assert!(section_messages(&parse_json("{}").unwrap(), "Main").is_empty());
    assert!(section_messages(&parse_json(r#"{"index": []}"#).unwrap(), "Main").is_empty());
}

#[test]
fn field_without_a_name_is_not_told_of() {
    let rustdoc = rustdoc();
    let index = get_json_object(&rustdoc, &["index"]).unwrap();
    assert_eq!(section_message(index, &Json::Number(Some(4))), None);
    assert_eq!(section_message(index, &Json::Text("9".to_string())), None);
    assert_eq!(section_message(index, &Json::Null), None);
    assert_eq!(
        section_message(index, &Json::Text("2".to_string())),
        Some("Ignoring field 'old' due to @ignore annotation".to_string())
    );
}

#[test]
fn structs_are_told_as_a_list() {
    for structs in [vec![], vec!["A".to_string()], vec!["A\"".to_string(), "B".to_string()]] {
        assert_eq!(
            structs_message(&structs),
            format!("Final discovered structs: {:?}", structs)
        );
    }
}

#[test]
fn sections_are_told_as_a_map() {
    let mut mapping = NameMap::new();
    let mut map: HashMap<String, String> = HashMap::new();
    assert_eq!(
        mapping_message(&mapping),
        format!("Final section mappings: {:?}", map)
    );
    mapping.insert("[a]".to_string(), "A".to_string());
    map.insert("[a]".to_string(), "A".to_string());
    assert_eq!(
        mapping_message(&mapping),
        format!("Final section mappings: {:?}", map)
    );
    mapping.insert("[b]".to_string(), "B".to_string());
    assert_eq!(
        mapping_message(&mapping),
        "Final section mappings: {\"[a]\": \"A\", \"[b]\": \"B\"}"
    );
}
