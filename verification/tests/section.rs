//! Finding the sections of a configuration file.

use config_docs::error::ExtractError;
use config_docs::json::{parse_json, Json};
use config_docs::section::derive_config_structs_from_main;

fn json(text: &str) -> Json {
    parse_json(text).unwrap()
}

#[test]
fn test_derive_config_structs_from_main_with_type_extraction() {
    let mock_rustdoc = json(r##"{
        "index": {
            "main_config_id": {
                "name": "ConfigFile",
                "inner": {
                    "struct": {
                        "kind": {
                            "plain": {
                                "fields": ["burnchain_field_id", "node_field_id", "events_field_id"]
                            }
                        }
                    }
                }
            },
            "burnchain_field_id": {
                "name": "burnchain",
                "inner": {
                    "struct_field": {
                        "type": {
                            "resolved_path": {
                                "name": "BurnchainConfigFile"
                            }
                        }
                    }
                }
            },
            "node_field_id": {
                "name": "node",
                "inner": {
                    "struct_field": {
                        "type": {
                            "resolved_path": {
                                "name": "NodeConfigFile"
                            }
                        }
                    }
                }
            },
            "events_field_id": {
                "name": "events_observer",
                "inner": {
                    "struct_field": {
                        "type": {
                            "generic": {
                                "name": "Vec",
                                "args": [{
                                    "resolved_path": {
                                        "name": "EventObserverConfigFile"
                                    }
                                }]
                            }
                        }
                    }
                }
            },
            "burnchain_config_id": {
                "name": "BurnchainConfigFile",
                "inner": {
                    "struct": {}
                }
            },
            "node_config_id": {
                "name": "NodeConfigFile",
                "inner": {
                    "struct": {}
                }
            },
            "events_config_id": {
                "name": "EventObserverConfigFile",
                "inner": {
                    "struct": {}
                }
            }
        }
    }"##);

    let result = derive_config_structs_from_main(&mock_rustdoc, "ConfigFile");
    assert!(result.is_ok());

    let (structs, mappings) = result.unwrap();

    assert_eq!(structs.len(), 2);
    assert!(structs.contains(&"BurnchainConfigFile".to_string()));
    assert!(structs.contains(&"NodeConfigFile".to_string()));

    assert_eq!(mappings.len(), 2);
    assert_eq!(
        mappings.get("[burnchain]"),
        Some(&"BurnchainConfigFile".to_string())
    );
    assert_eq!(mappings.get("[node]"), Some(&"NodeConfigFile".to_string()));
}

#[test]
fn test_derive_config_structs_from_main_with_ignored_field() {
    // Test that fields with @ignore annotation are skipped
    let mock_rustdoc = json(r##"{
        "index": {
            "main_config_id": {
                "name": "ConfigFile",
                "inner": {
                    "struct": {
                        "kind": {
                            "plain": {
                                "fields": ["normal_field_id", "ignored_field_id"]
                            }
                        }
                    }
                }
            },
            "normal_field_id": {
                "name": "normal",
                "docs": "Normal field documentation",
                "inner": {
                    "struct_field": {
                        "type": {
                            "resolved_path": {
                                "name": "NormalConfigFile"
                            }
                        }
                    }
                }
            },
            "ignored_field_id": {
                "name": "ignored",
                "docs": "Field documentation\n@ignore",
                "inner": {
                    "struct_field": {
                        "type": {
                            "resolved_path": {
                                "name": "IgnoredConfigFile"
                            }
                        }
                    }
                }
            },
            "normal_config_id": {
                "name": "NormalConfigFile",
                "inner": {
                    "struct": {}
                }
            },
            "ignored_config_id": {
                "name": "IgnoredConfigFile",
                "inner": {
                    "struct": {}
                }
            }
        }
    }"##);

    let result = derive_config_structs_from_main(&mock_rustdoc, "ConfigFile");
    assert!(result.is_ok());

    let (structs, mappings) = result.unwrap();

    // Should only include the normal field, not the ignored one
    assert_eq!(structs.len(), 1);
    assert!(structs.contains(&"NormalConfigFile".to_string()));
    assert!(!structs.contains(&"IgnoredConfigFile".to_string()));

    assert_eq!(mappings.len(), 1);
    assert_eq!(
        mappings.get("[normal]"),
        Some(&"NormalConfigFile".to_string())
    );
    assert!(mappings.get("[ignored]").is_none());
}

#[test]
fn missing_index_is_told() {
    let error = derive_config_structs_from_main(&json("{}"), "Main").unwrap_err();
    assert_eq!(error, ExtractError::MissingIndex);
    assert_eq!(error.message(), "Missing 'index' in rustdoc JSON");
    let error = derive_config_structs_from_main(&json("[]"), "Main").unwrap_err();
    assert_eq!(error, ExtractError::MissingIndex);
}

#[test]
fn index_that_is_no_object_is_told() {
    let error = derive_config_structs_from_main(&json(r#"{"index": []}"#), "Main").unwrap_err();
    assert_eq!(error, ExtractError::IndexNotObject);
    assert_eq!(error.message(), "Index is not an object");
}

#[test]
fn missing_main_struct_is_told() {
    let rustdoc = json(r#"{"index": {"1": {"name": "Main", "inner": {"enum": {}}}}}"#);
    let error = derive_config_structs_from_main(&rustdoc, "Main").unwrap_err();
    assert_eq!(error, ExtractError::MainStructNotFound("Main".to_string()));
    assert_eq!(
        error.message(),
        "Main config struct 'Main' not found in rustdoc JSON"
    );
}

#[test]
fn main_struct_without_named_fields_has_no_sections() {
    let rustdoc = json(r#"{"index": {"1": {"name": "Main", "inner": {"struct": {}}}}}"#);
    let (structs, mapping) = derive_config_structs_from_main(&rustdoc, "Main").unwrap();
    assert!(structs.is_empty());
    assert_eq!(mapping.len(), 0);
}

#[test]
fn sections_are_described_by_ascending_structs() {
    let rustdoc = json(
        r#"{"index": {
        "0": {"name": "Main", "inner": {"struct": {"kind": {"plain": {"fields": [1, "2", 3, 4, 5, 6, null, "9"]}}}}},
        "1": {"name": "z", "inner": {"struct_field": {"resolved_path": {"path": "Zed"}}}},
        "2": {"name": "list", "inner": {"struct_field": {"resolved_path": {"path": "Vec",
            "args": {"angle_bracketed": {"args": [{"type": {"resolved_path": {"path": "Abc"}}}]}}}}}},
        "3": {"name": "again", "docs": "see above", "inner": {"struct_field": {"resolved_path": {"path": "Zed"}}}},
        "4": {"inner": {"struct_field": {"resolved_path": {"path": "Abc"}}}},
        "5": {"name": "prim", "inner": {"struct_field": {"primitive": "u8"}}},
        "6": {"name": "z", "inner": {"struct_field": {"resolved_path": {"path": "Mid"}}}},
        "a": {"name": "Zed", "inner": {"struct": {}}},
        "b": {"name": "Abc", "inner": {"struct": {}}},
        "c": {"name": "Mid", "inner": {"struct": {}}}
    }}"#,
    );
    let (structs, mapping) = derive_config_structs_from_main(&rustdoc, "Main").unwrap();
    assert_eq!(structs, vec!["Abc", "Mid", "Zed"]);
    assert_eq!(mapping.len(), 3);
    assert_eq!(mapping.get("[z]"), Some(&"Mid".to_string()));
    assert_eq!(mapping.get("[[list]]"), Some(&"Abc".to_string()));
    assert_eq!(mapping.get("[again]"), Some(&"Zed".to_string()));
}

#[test]
fn titles_tell_fields_and_collections_apart() {
    let rustdoc = json(
        r#"{"index": {
        "0": {"name": "Main", "inner": {"struct": {"kind": {"plain": {"fields": [1, 2, 3]}}}}},
        "1": {"name": "a", "inner": {"struct_field": {"resolved_path": {"path": "One"}}}},
        "2": {"name": "a", "inner": {"struct_field": {"resolved_path": {"path": "HashSet",
            "args": {"angle_bracketed": {"args": [{"type": {"path": "Many"}}]}}}}}},
        "3": {"name": "b", "inner": {"struct_field": {"resolved_path": {"path": "One"}}}},
        "4": {"name": "One", "inner": {"struct": {}}},
        "5": {"name": "Many", "inner": {"struct": {}}}
    }}"#,
    );
    let (structs, mapping) = derive_config_structs_from_main(&rustdoc, "Main").unwrap();
    assert_eq!(structs, vec!["Many", "One"]);
    assert_eq!(mapping.len(), 3);
    assert_eq!(mapping.get("[a]"), Some(&"One".to_string()));
    assert_eq!(mapping.get("[[a]]"), Some(&"Many".to_string()));
    assert_eq!(mapping.get("[b]"), Some(&"One".to_string()));
}
