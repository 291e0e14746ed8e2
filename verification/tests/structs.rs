//! Reading the documentation of structs.

use config_docs::json::{get_json_object, get_json_path, parse_json, Json};
use config_docs::structs::{
    extract_struct_fields, extract_struct_from_rustdoc_index, struct_cuts, struct_warnings,
};

fn json(text: &str) -> Json {
    parse_json(text).unwrap()
}

fn members(value: &Json) -> &Vec<(String, Json)> {
    get_json_object(value, &[]).unwrap()
}

#[test]
fn test_extract_struct_fields_from_mock_data() {
    let mock_index = json(r##"{
        "struct_1": {
            "name": "TestStruct",
            "inner": {
                "struct": {
                    "kind": {
                        "plain": {
                            "fields": ["field_1", "field_2"]
                        }
                    }
                }
            }
        },
        "field_1": {
            "name": "test_field",
            "docs": "A test field.\n---\n@default: `42`"
        },
        "field_2": {
            "name": "another_field",
            "docs": "Another field with notes.\n---\n@default: `\"hello\"`\n@notes:\n  - This is a note."
        }
    }"##);

    let index = members(&mock_index);
    let struct_item = get_json_path(&mock_index, &["struct_1"]).unwrap();

    let (fields, _referenced_constants) = extract_struct_fields(index, struct_item).unwrap();

    assert_eq!(fields.len(), 2);

    let first_field = &fields[0];
    assert_eq!(first_field.name, "test_field");
    assert_eq!(first_field.description, "A test field.");
    assert_eq!(first_field.default_value, Some("`42`".to_string()));

    let second_field = &fields[1];
    assert_eq!(second_field.name, "another_field");
    assert_eq!(second_field.description, "Another field with notes.");
    assert_eq!(second_field.default_value, Some("`\"hello\"`".to_string()));
    assert_eq!(
        second_field.notes,
        Some(vec!["This is a note.".to_string()])
    );
}

#[test]
fn test_extract_struct_from_rustdoc_index() {
    let mock_index = json(r##"{
        "struct_1": {
            "name": "TestStruct",
            "docs": "This is a test struct for configuration.",
            "inner": {
                "struct": {
                    "kind": {
                        "plain": {
                            "fields": ["field_1"]
                        }
                    }
                }
            }
        },
        "field_1": {
            "name": "config_field",
            "docs": "Configuration field.\n---\n@default: `\"default\"`"
        }
    }"##);

    let index = members(&mock_index);
    let struct_item = get_json_path(&mock_index, &["struct_1"]).unwrap();

    let result = extract_struct_from_rustdoc_index(index, "TestStruct", struct_item).unwrap();

    assert!(result.0.is_some());
    let struct_doc = result.0.unwrap();
    assert_eq!(struct_doc.name, "TestStruct");
    assert_eq!(
        struct_doc.description,
        Some("This is a test struct for configuration.".to_string())
    );
    assert_eq!(struct_doc.fields.len(), 1);
    assert_eq!(struct_doc.fields[0].name, "config_field");
}

#[test]
fn test_extract_struct_fields_numeric_field_ids() {
    let mock_index = json(r##"{
        "struct_1": {
            "name": "TestStruct",
            "inner": {
                "struct": {
                    "kind": {
                        "plain": {
                            "fields": [123, 456]
                        }
                    }
                }
            }
        },
        "123": {
            "name": "numeric_field",
            "docs": "Field with numeric ID.\n---\n@default: `0`"
        },
        "456": {
            "name": "another_numeric",
            "docs": "Another numeric field."
        }
    }"##);

    let index = members(&mock_index);
    let struct_item = get_json_path(&mock_index, &["struct_1"]).unwrap();

    let (fields, _referenced_constants) = extract_struct_fields(index, struct_item).unwrap();

    assert_eq!(fields.len(), 2);
    assert_eq!(fields[0].name, "numeric_field");
    assert_eq!(fields[1].name, "another_numeric");
}

#[test]
fn test_extract_struct_fields_missing_field_data() {
    let mock_index = json(r##"{
        "struct_1": {
            "name": "TestStruct",
            "inner": {
                "struct": {
                    "kind": {
                        "plain": {
                            "fields": ["missing_field", "present_field"]
                        }
                    }
                }
            }
        },
        "present_field": {
            "name": "present",
            "docs": "This field exists."
        }
    }"##);

    let index = members(&mock_index);
    let struct_item = get_json_path(&mock_index, &["struct_1"]).unwrap();

    let (fields, _referenced_constants) = extract_struct_fields(index, struct_item).unwrap();

    // Should only include the present field
    assert_eq!(fields.len(), 1);
    assert_eq!(fields[0].name, "present");
}

#[test]
fn test_extract_struct_fields_no_documentation() {
    let mock_index = json(r##"{
        "struct_1": {
            "name": "TestStruct",
            "inner": {
                "struct": {
                    "kind": {
                        "plain": {
                            "fields": ["field_1"]
                        }
                    }
                }
            }
        },
        "field_1": {
            "name": "undocumented_field",
            "docs": ""
        }
    }"##);

    let index = members(&mock_index);
    let struct_item = get_json_path(&mock_index, &["struct_1"]).unwrap();

    let (fields, _referenced_constants) = extract_struct_fields(index, struct_item).unwrap();

    // Fields without documentation should be excluded
    assert_eq!(fields.len(), 0);
}

#[test]
fn test_extract_struct_fields_malformed_structure() {
    let mock_index = json(r##"{
        "struct_1": {
            "name": "TestStruct",
            "inner": {
                "struct": {
                    "kind": {
                        "tuple": {}
                    }
                }
            }
        }
    }"##);

    let index = members(&mock_index);
    let struct_item = get_json_path(&mock_index, &["struct_1"]).unwrap();

    let (fields, _referenced_constants) = extract_struct_fields(index, struct_item).unwrap();

    // Should handle malformed structures gracefully
    assert_eq!(fields.len(), 0);
}

#[test]
fn test_extract_struct_from_rustdoc_index_no_fields_no_description() {
    let mock_index = json(r##"{
        "struct_1": {
            "name": "EmptyStruct",
            "inner": {
                "struct": {
                    "kind": {
                        "plain": {
                            "fields": []
                        }
                    }
                }
            }
        }
    }"##);

    let index = members(&mock_index);
    let struct_item = get_json_path(&mock_index, &["struct_1"]).unwrap();

    let result = extract_struct_from_rustdoc_index(index, "EmptyStruct", struct_item).unwrap();

    // Should return None for structs with no fields and no description
    assert!(result.0.is_none());
}

#[test]
fn listed_fields_have_a_description_or_a_default() {
    let index = json(
        r#"{
        "s": {"inner": {"struct": {"kind": {"plain": {"fields": ["a", "b", "c", "d", 7, true]}}}}},
        "a": {"name": "a", "docs": "---\n@default: 1"},
        "b": {"name": "b", "docs": "---\n@units: [`ONLY_CONSTANT`]"},
        "c": {"docs": "Described."},
        "d": {"name": "d"},
        "7": {"name": "seven", "docs": "Seven."}
    }"#,
    );
    let item = get_json_path(&index, &["s"]).unwrap();
    let (fields, constants) = extract_struct_fields(members(&index), item).unwrap();
    let names: Vec<&str> = fields.iter().map(|field| field.name.as_str()).collect();
    assert_eq!(names, vec!["a", "unknown", "seven"]);
    assert_eq!(fields[0].description, "");
    assert_eq!(fields[0].default_value, Some("1".to_string()));
    assert_eq!(constants.names, vec!["ONLY_CONSTANT".to_string()]);
}

#[test]
fn struct_has_the_constants_of_its_own_documentation() {
    let index = json(
        r#"{
        "s": {"docs": "Uses [`A`].", "inner": {"struct": {"kind": {"plain": {"fields": ["f"]}}}}},
        "f": {"name": "f", "docs": "Uses [`B`]."}
    }"#,
    );
    let item = get_json_path(&index, &["s"]).unwrap();
    let (doc, constants) =
        extract_struct_from_rustdoc_index(members(&index), "Named", item).unwrap();
    let doc = doc.unwrap();
    assert_eq!(doc.name, "Named");
    assert_eq!(doc.description, Some("Uses [`A`].".to_string()));
    assert_eq!(constants.len(), 2);
    assert!(constants.contains("A"));
    assert!(constants.contains("B"));
}

#[test]
fn struct_with_a_field_or_an_empty_description_is_documented() {
    let index = json(
        r#"{
        "s": {"inner": {"struct": {"kind": {"plain": {"fields": ["f"]}}}}},
        "e": {"docs": "", "inner": {"struct": {}}},
        "f": {"name": "f", "docs": "Field."}
    }"#,
    );
    let item = get_json_path(&index, &["s"]).unwrap();
    let (doc, _) = extract_struct_from_rustdoc_index(members(&index), "S", item).unwrap();
    assert_eq!(doc.unwrap().description, None);
    let item = get_json_path(&index, &["e"]).unwrap();
    let (doc, _) = extract_struct_from_rustdoc_index(members(&index), "E", item).unwrap();
    assert_eq!(doc.unwrap().description, Some(String::new()));
}

#[test]
fn indentation_in_fields_is_told() {
    let index = json(
        r#"{
        "s": {"inner": {"struct": {"kind": {"plain": {"fields": ["f", "g"]}}}}},
        "t": {"inner": {"struct": {"kind": {"plain": {"fields": ["g", "h"]}}}}},
        "f": {"name": "f", "docs": "F\n---\n@default:\n  a\n　b"},
        "g": {"name": "g", "docs": "G\n---\n@default:\n  a\n  b"}
    }"#,
    );
    let clean = |id: &str| struct_cuts(members(&index), get_json_path(&index, &[id]).unwrap());
    assert!(!clean("s"));
    assert!(clean("t"));
}

#[test]
fn fields_are_warned_of_in_their_order() {
    let index = json(
        r#"{
        "s": {"inner": {"struct": {"kind": {"plain": {"fields": ["b", "x", "a", "c"]}}}}},
        "a": {"name": "a", "docs": "---\n@required: 1"},
        "b": {"name": "b", "docs": "---\n@required: 2"},
        "c": {"name": "c", "docs": "---\n@required: false"}
    }"#,
    );
    let item = get_json_path(&index, &["s"]).unwrap();
    assert_eq!(
        struct_warnings(members(&index), item),
        vec![
            "Warning: Invalid @required value '2' for field 'b', defaulting to false",
            "Warning: Invalid @required value '1' for field 'a', defaulting to false",
        ]
    );
}
