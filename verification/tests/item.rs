//! Finding the structs that the types of fields stand for.

use config_docs::item::{
    extract_field_type_info, parse_type_for_struct_name, struct_exists_in_index,
};
use config_docs::json::{get_json_object, parse_json, Json};

fn json(text: &str) -> Json {
    parse_json(text).unwrap()
}

fn members(value: &Json) -> &Vec<(String, Json)> {
    get_json_object(value, &[]).unwrap()
}

#[test]
fn test_extract_field_type_info_resolved_path() {
    // Test extracting type info from resolved_path structure
    let mock_index = json(r##"{
        "config_struct_id": {
            "name": "BurnchainConfigFile",
            "inner": {
                "struct": {}
            }
        }
    }"##);

    let field_item = json(r##"{
        "name": "burnchain",
        "inner": {
            "struct_field": {
                "type": {
                    "resolved_path": {
                        "name": "BurnchainConfigFile"
                    }
                }
            }
        }
    }"##);

    let index = members(&mock_index);
    let result = extract_field_type_info(&field_item, index);

    assert_eq!(result, Some(("BurnchainConfigFile".to_string(), false)));
}

#[test]
fn test_extract_field_type_info_vec_type() {
    // Test extracting type info from Vec<ConfigStruct> structure
    let mock_index = json(r##"{
        "config_struct_id": {
            "name": "EventObserverConfigFile",
            "inner": {
                "struct": {}
            }
        }
    }"##);

    let field_item = json(r##"{
        "name": "events_observer",
        "inner": {
            "struct_field": {
                "type": {
                    "generic": {
                        "name": "Vec",
                        "args": [{
                            "resolved_path": {
                                "name": "EventObserverConfigFile"
                            }
                        }]
                    }
                }
            }
        }
    }"##);

    let index = members(&mock_index);
    let result = extract_field_type_info(&field_item, index);

    assert_eq!(result, None);
}

#[test]
fn test_extract_field_type_info_option_type() {
    // Test extracting type info from Option<ConfigStruct> structure
    let mock_index = json(r##"{
        "config_struct_id": {
            "name": "MinerConfigFile",
            "inner": {
                "struct": {}
            }
        }
    }"##);

    let field_item = json(r##"{
        "name": "miner",
        "inner": {
            "struct_field": {
                "type": {
                    "generic": {
                        "name": "Option",
                        "args": [{
                            "resolved_path": {
                                "name": "MinerConfigFile"
                            }
                        }]
                    }
                }
            }
        }
    }"##);

    let index = members(&mock_index);
    let result = extract_field_type_info(&field_item, index);

    assert_eq!(result, None);
}

#[test]
fn test_extract_field_type_info_option_vec_type() {
    // Test extracting type info from Option<Vec<ConfigStruct>> structure
    let mock_index = json(r##"{
        "config_struct_id": {
            "name": "SomeConfigFile",
            "inner": {
                "struct": {}
            }
        }
    }"##);

    let field_item = json(r##"{
        "name": "optional_list",
        "inner": {
            "struct_field": {
                "type": {
                    "generic": {
                        "name": "Option",
                        "args": [{
                            "generic": {
                                "name": "Vec",
                                "args": [{
                                    "resolved_path": {
                                        "name": "SomeConfigFile"
                                    }
                                }]
                            }
                        }]
                    }
                }
            }
        }
    }"##);

    let index = members(&mock_index);
    let result = extract_field_type_info(&field_item, index);

    assert_eq!(result, None);
}

#[test]
fn test_extract_field_type_info_non_config_struct() {
    // Test that the function accepts any struct that exists in the index
    let mock_index = json(r##"{
        "regular_struct_id": {
            "name": "RegularStruct",
            "inner": {
                "struct": {}
            }
        }
    }"##);

    let field_item = json(r##"{
        "name": "regular_field",
        "inner": {
            "struct_field": {
                "type": {
                    "resolved_path": {
                        "name": "RegularStruct"
                    }
                }
            }
        }
    }"##);

    let index = members(&mock_index);
    let result = extract_field_type_info(&field_item, index);

    assert_eq!(result, Some(("RegularStruct".to_string(), false)));
}

#[test]
fn test_extract_field_type_info_alternative_paths() {
    // Test alternative JSON paths for type information
    let mock_index = json(r##"{
        "config_struct_id": {
            "name": "NodeConfig",
            "inner": {
                "struct": {}
            }
        }
    }"##);

    // Test field.inner.type path
    let field_item1 = json(r##"{
        "name": "node",
        "inner": {
            "type": {
                "resolved_path": {
                    "name": "NodeConfig"
                }
            }
        }
    }"##);

    // Test field.type path
    let field_item2 = json(r##"{
        "name": "node",
        "type": {
            "resolved_path": {
                "name": "NodeConfig"
            }
        }
    }"##);

    let index = members(&mock_index);

    let result1 = extract_field_type_info(&field_item1, index);
    let result2 = extract_field_type_info(&field_item2, index);

    assert_eq!(result1, Some(("NodeConfig".to_string(), false)));
    assert_eq!(result2, Some(("NodeConfig".to_string(), false)));
}

#[test]
fn test_extract_field_type_info_missing_type() {
    // Test field with no type information
    let mock_index = json(r##"{}"##);

    let field_item = json(r##"{
        "name": "field_without_type",
        "docs": "Some field documentation"
    }"##);

    let index = members(&mock_index);
    let result = extract_field_type_info(&field_item, index);

    assert_eq!(result, None);
}

#[test]
fn test_parse_type_for_struct_name_primitive_type() {
    // Test that primitive types are ignored
    let mock_index = json(r##"{}"##);
    let index = members(&mock_index);

    let primitive_type = json(r##"{
        "primitive": "u32"
    }"##);

    let result = parse_type_for_struct_name(&primitive_type, index);
    assert_eq!(result, None);
}

fn type_of(text: &str) -> Option<(String, bool)> {
    let index = json(
        r#"{
        "1": {"name": "Conf", "inner": {"struct": {}}},
        "2": {"name": "Func", "inner": {"function": {}}},
        "3": {"name": "Unit", "inner": {"struct": "unit"}}
    }"#,
    );
    parse_type_for_struct_name(&json(text), members(&index))
}

fn generic(path: &str, argument: &str) -> String {
    format!(
        r#"{{"path": "{}", "args": {{"angle_bracketed": {{"args": [{{"type": {}}}]}}}}}}"#,
        path, argument
    )
}

#[test]
fn type_stands_for_a_struct_of_the_index() {
    let conf = Some(("Conf".to_string(), false));
    assert_eq!(type_of(r#"{"path": "Conf"}"#), conf);
    assert_eq!(type_of(r#"{"resolved_path": {"path": "Conf"}}"#), conf);
    assert_eq!(type_of(r#"{"resolved_path": {"name": "Conf"}}"#), conf);
    assert_eq!(type_of(r#"{"path": "Other", "resolved_path": {"path": "Conf"}}"#), conf);
    assert_eq!(type_of(r#"{"resolved_path": {"path": "Other", "name": "Conf"}}"#), conf);
    assert_eq!(type_of(r#"{"path": "Func"}"#), None);
    assert_eq!(type_of(r#"{"path": "Unit"}"#), None);
    assert_eq!(type_of(r#"{"path": 1, "resolved_path": "Conf"}"#), None);
}

#[test]
fn collection_counts_its_items() {
    let many = Some(("Conf".to_string(), true));
    let conf = r#"{"path": "Conf"}"#;
    for path in ["Vec", "HashSet", "std::collections::HashSet"] {
        assert_eq!(type_of(&generic(path, conf)), many, "{}", path);
        let resolved = format!(r#"{{"resolved_path": {}}}"#, generic(path, conf));
        assert_eq!(type_of(&resolved), many, "{}", path);
        assert_eq!(type_of(&generic(path, r#"{"path": "Other"}"#)), None);
        assert_eq!(type_of(&format!(r#"{{"path": "{}"}}"#, path)), None);
    }
    assert_eq!(type_of(&generic("BTreeSet", conf)), None);
}

#[test]
fn option_is_transparent() {
    let conf = r#"{"path": "Conf"}"#;
    assert_eq!(type_of(&generic("Option", conf)), type_of(conf));
    let many = generic("Vec", conf);
    assert_eq!(type_of(&generic("Option", &many)), type_of(&many));
    assert_eq!(
        type_of(&generic("Vec", &generic("Option", conf))),
        Some(("Conf".to_string(), true))
    );
    let resolved = format!(r#"{{"resolved_path": {}}}"#, generic("Option", conf));
    assert_eq!(type_of(&resolved), None);
}

#[test]
fn first_place_of_the_type_counts() {
    let index = json(r#"{"1": {"name": "Conf", "inner": {"struct": {}}}}"#);
    let field = json(
        r#"{"inner": {"struct_field": {"resolved_path": {"path": "Other"}, "type": {"path": "Conf"}}}}"#,
    );
    assert_eq!(extract_field_type_info(&field, members(&index)), None);
    let field = json(r#"{"inner": {"struct_field": {"resolved_path": {"path": "Conf"}}}}"#);
    assert_eq!(
        extract_field_type_info(&field, members(&index)),
        Some(("Conf".to_string(), false))
    );
}

#[test]
fn struct_is_in_the_index_by_name_and_kind() {
    let index = json(
        r#"{
        "1": {"name": "A", "inner": {"function": {}}},
        "2": {"name": "A", "inner": {"struct": {}}},
        "3": {"name": "B", "inner": {"enum": {}}}
    }"#,
    );
    assert!(struct_exists_in_index("A", members(&index)));
    assert!(!struct_exists_in_index("B", members(&index)));
    assert!(!struct_exists_in_index("C", members(&index)));
}
