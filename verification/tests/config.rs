//! Reading the documentation of a configuration file.

use config_docs::config::{config_cuts, config_warnings, extract_config_docs_from_rustdoc};
use config_docs::error::ExtractError;
use config_docs::json::{parse_json, Json};
use config_docs::names::NameMap;
use config_docs::section::derive_config_structs_from_main;

fn json(text: &str) -> Json {
    parse_json(text).unwrap()
}

#[test]
fn test_extract_config_docs_from_rustdoc() {
    let mock_rustdoc = json(r##"{
        "index": {
            "item_1": {
                "name": "ConfigStruct",
                "inner": {
                    "struct": {
                        "kind": {
                            "plain": {
                                "fields": ["field_1"]
                            }
                        }
                    }
                },
                "docs": "A configuration struct."
            },
            "item_2": {
                "name": "NonStruct",
                "inner": {
                    "function": {}
                }
            },
            "field_1": {
                "name": "setting",
                "docs": "A configuration setting.\n---\n@default: `true`"
            }
        }
    }"##);

    let target_structs = Some(vec!["ConfigStruct".to_string()]);
    let result =
        extract_config_docs_from_rustdoc(&mock_rustdoc, &target_structs, NameMap::new(), &vec![])
            .unwrap();

    assert_eq!(result.structs.len(), 1);
    let struct_doc = &result.structs[0];
    assert_eq!(struct_doc.name, "ConfigStruct");
    assert_eq!(
        struct_doc.description,
        Some("A configuration struct.".to_string())
    );
    assert_eq!(struct_doc.fields.len(), 1);
}

#[test]
fn test_extract_config_docs_filter_by_target() {
    let mock_rustdoc = json(r##"{
        "index": {
            "item_1": {
                "name": "WantedStruct",
                "inner": {
                    "struct": {
                        "kind": {
                            "plain": {
                                "fields": []
                            }
                        }
                    }
                },
                "docs": "Wanted struct."
            },
            "item_2": {
                "name": "UnwantedStruct",
                "inner": {
                    "struct": {
                        "kind": {
                            "plain": {
                                "fields": []
                            }
                        }
                    }
                },
                "docs": "Unwanted struct."
            }
        }
    }"##);

    let target_structs = Some(vec!["WantedStruct".to_string()]);
    let result =
        extract_config_docs_from_rustdoc(&mock_rustdoc, &target_structs, NameMap::new(), &vec![])
            .unwrap();

    assert_eq!(result.structs.len(), 1);
    assert_eq!(result.structs[0].name, "WantedStruct");
}

#[test]
fn test_extract_config_docs_no_filter() {
    let mock_rustdoc = json(r##"{
        "index": {
            "item_1": {
                "name": "Struct1",
                "inner": {
                    "struct": {
                        "kind": {
                            "plain": {
                                "fields": []
                            }
                        }
                    }
                },
                "docs": "First struct."
            },
            "item_2": {
                "name": "Struct2",
                "inner": {
                    "struct": {
                        "kind": {
                            "plain": {
                                "fields": []
                            }
                        }
                    }
                },
                "docs": "Second struct."
            }
        }
    }"##);

    let result =
        extract_config_docs_from_rustdoc(&mock_rustdoc, &None, NameMap::new(), &vec![]).unwrap();

    assert_eq!(result.structs.len(), 2);
    let names: Vec<&str> = result.structs.iter().map(|s| s.name.as_str()).collect();
    assert!(names.contains(&"Struct1"));
    assert!(names.contains(&"Struct2"));
}

#[test]
fn test_extract_config_docs_missing_index() {
    let invalid_rustdoc = json(r##"{
        "not_index": {}
    }"##);

    let result = extract_config_docs_from_rustdoc(&invalid_rustdoc, &None, NameMap::new(), &vec![]);
    assert!(result.is_err());
    assert!(
        result
            .unwrap_err()
            .message()
            .contains("Missing 'index' field")
    );
}

#[test]
fn test_extract_config_docs_with_constants() {
    let mock_rustdoc = json(r##"{
        "index": {
            "struct_1": {
                "name": "TestStruct",
                "inner": {
                    "struct": {
                        "kind": {
                            "plain": {
                                "fields": ["field_1"]
                            }
                        }
                    }
                },
                "docs": "Struct that uses [`STRUCT_CONSTANT`]."
            },
            "field_1": {
                "name": "test_field",
                "docs": "Field using [`FIELD_CONSTANT`].\n---\n@default: [`DEFAULT_CONST`]"
            },
            "const_1": {
                "name": "STRUCT_CONSTANT",
                "inner": {
                    "constant": {
                        "expr": "100"
                    }
                }
            },
            "const_2": {
                "name": "FIELD_CONSTANT",
                "inner": {
                    "constant": {
                        "value": "\"test\""
                    }
                }
            },
            "const_3": {
                "name": "DEFAULT_CONST",
                "inner": {
                    "constant": {
                        "expr": "42"
                    }
                }
            }
        }
    }"##);

    let target_structs = Some(vec!["TestStruct".to_string()]);
    let result =
        extract_config_docs_from_rustdoc(&mock_rustdoc, &target_structs, NameMap::new(), &vec![]);
    assert!(result.is_ok());

    let config_docs = result.unwrap();
    assert_eq!(config_docs.structs.len(), 1);
    let struct_doc = &config_docs.structs[0];
    assert_eq!(struct_doc.name, "TestStruct");
    assert_eq!(struct_doc.fields.len(), 1);
    assert_eq!(struct_doc.fields[0].name, "test_field");
    assert_eq!(
        struct_doc.fields[0].default_value,
        Some("[`DEFAULT_CONST`]".to_string())
    );

    // Check that constants were resolved
    assert_eq!(config_docs.referenced_constants.len(), 3);
    assert_eq!(
        config_docs.referenced_constants.get("STRUCT_CONSTANT"),
        Some(&Some("100".to_string()))
    );
    assert_eq!(
        config_docs.referenced_constants.get("FIELD_CONSTANT"),
        Some(&Some("\"test\"".to_string()))
    );
    assert_eq!(
        config_docs.referenced_constants.get("DEFAULT_CONST"),
        Some(&Some("42".to_string()))
    );
}

#[test]
fn test_extract_config_docs_empty_target_structs() {
    // Test with empty target structs list
    let rustdoc_json = json(r##"{
        "index": {},
        "format_version": 1
    }"##);

    let result = extract_config_docs_from_rustdoc(&rustdoc_json, &Some(vec![]), NameMap::new(), &vec![]);
    assert!(result.is_ok());

    let config_docs = result.unwrap();
    assert_eq!(config_docs.structs.len(), 0);
}

fn two_structs() -> Json {
    json(
        r#"{"index": {
        "1": {"name": "A", "docs": "Uses [`ONE`] and [`TWO`].", "inner": {"struct": {}}},
        "2": {"name": "B", "docs": "Uses [`THREE`].", "inner": {"struct": {}}},
        "3": {"name": "C", "inner": {"struct": {}}},
        "4": {"docs": "Nameless [`FOUR`].", "inner": {"struct": {}}},
        "5": {"name": "ONE", "inner": {"constant": {"expr": "1"}}}
    }}"#,
    )
}

#[test]
fn constants_of_the_documented_structs_are_looked_up() {
    let additional = vec![json(
        r#"{"index": {"1": {"name": "THREE", "inner": {"constant": {"value": "3u8"}}}}}"#,
    )];
    let docs =
        extract_config_docs_from_rustdoc(&two_structs(), &None, NameMap::new(), &additional)
            .unwrap();
    assert_eq!(docs.referenced_constants.len(), 3);
    assert_eq!(docs.referenced_constants.get("ONE"), Some(&Some("1".to_string())));
    assert_eq!(docs.referenced_constants.get("TWO"), Some(&None));
    assert_eq!(docs.referenced_constants.get("THREE"), Some(&Some("3".to_string())));
    assert_eq!(docs.referenced_constants.get("FOUR"), None);
}

#[test]
fn targets_limit_the_structs() {
    let names = |targets: Option<Vec<String>>| -> Vec<String> {
        extract_config_docs_from_rustdoc(&two_structs(), &targets, NameMap::new(), &vec![])
            .unwrap()
            .structs
            .into_iter()
            .map(|doc| doc.name)
            .collect()
    };
    assert_eq!(names(None), vec!["A", "B"]);
    assert_eq!(names(Some(vec!["B".to_string(), "C".to_string()])), vec!["B"]);
    assert_eq!(names(Some(vec!["ONE".to_string()])), Vec::<String>::new());
    assert_eq!(names(Some(vec![])), Vec::<String>::new());
}

#[test]
fn nothing_is_looked_up_without_a_target() {
    let docs =
        extract_config_docs_from_rustdoc(&two_structs(), &Some(vec![]), NameMap::new(), &vec![])
            .unwrap();
    assert_eq!(docs.referenced_constants.len(), 0);
}

#[test]
fn sections_are_handed_on() {
    let mut mapping = NameMap::new();
    mapping.insert("[a]".to_string(), "A".to_string());
    let docs =
        extract_config_docs_from_rustdoc(&two_structs(), &None, mapping, &vec![]).unwrap();
    assert_eq!(docs.section_to_struct_mapping.len(), 1);
    assert_eq!(docs.section_to_struct_mapping.get("[a]"), Some(&"A".to_string()));
}

#[test]
fn structs_that_describe_sections_are_documented() {
    let rustdoc = json(
        r#"{"index": {
        "0": {"name": "Main", "inner": {"struct": {"kind": {"plain": {"fields": [1]}}}}},
        "1": {"name": "node", "inner": {"struct_field": {"resolved_path": {"path": "Node"}}}},
        "2": {"name": "Node", "docs": "A node.", "inner": {"struct": {}}},
        "3": {"name": "Other", "docs": "Another.", "inner": {"struct": {}}}
    }}"#,
    );
    let (structs, mapping) = derive_config_structs_from_main(&rustdoc, "Main").unwrap();
    let docs =
        extract_config_docs_from_rustdoc(&rustdoc, &Some(structs), mapping, &vec![]).unwrap();
    assert_eq!(docs.structs.len(), 1);
    assert_eq!(docs.structs[0].name, "Node");
    assert_eq!(docs.section_to_struct_mapping.get("[node]"), Some(&"Node".to_string()));
}

#[test]
fn index_that_is_no_object_is_missing() {
    let rustdoc = json(r#"{"index": []}"#);
    let error = extract_config_docs_from_rustdoc(&rustdoc, &None, NameMap::new(), &vec![])
        .unwrap_err();
    assert_eq!(error, ExtractError::MissingIndexField);
    assert_eq!(error.message(), "Missing 'index' field in rustdoc JSON");
}

#[test]
fn indentation_in_the_documented_structs_is_told() {
    let rustdoc = json(
        r#"{"index": {
        "1": {"name": "A", "inner": {"struct": {"kind": {"plain": {"fields": ["f"]}}}}},
        "2": {"name": "B", "inner": {"struct": {}}},
        "f": {"name": "f", "docs": "F\n---\n@default:\n  a\n　b"}
    }}"#,
    );
    assert!(!config_cuts(&rustdoc, &None));
    assert!(!config_cuts(&rustdoc, &Some(vec!["A".to_string()])));
    assert!(config_cuts(&rustdoc, &Some(vec!["B".to_string()])));
    assert!(config_cuts(&json("{}"), &None));
}

#[test]
fn fields_of_the_documented_structs_are_warned_of() {
    let rustdoc = json(
        r#"{"index": {
        "1": {"name": "A", "inner": {"struct": {"kind": {"plain": {"fields": ["f", "g"]}}}}},
        "2": {"name": "B", "inner": {"struct": {"kind": {"plain": {"fields": ["h"]}}}}},
        "f": {"name": "f", "docs": "---\n@required: yes"},
        "g": {"name": "g", "docs": "G\n---\n@required: true"},
        "h": {"docs": "H\n---\n@required: no"}
    }}"#,
    );
    let yes = "Warning: Invalid @required value 'yes' for field 'f', defaulting to false";
    let no = "Warning: Invalid @required value 'no' for field 'unknown', defaulting to false";
    assert_eq!(config_warnings(&rustdoc, &None), vec![yes, no]);
    assert_eq!(config_warnings(&rustdoc, &Some(vec!["B".to_string()])), vec![no]);
    assert_eq!(config_warnings(&rustdoc, &Some(vec![])), Vec::<String>::new());
    assert_eq!(config_warnings(&json("{}"), &None), Vec::<String>::new());
}
