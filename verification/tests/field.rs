//! Reading the documentation of fields.

use config_docs::field::{
    field_cuts, field_warning, parse_field_documentation, required_warning,
};

#[test]
fn test_parse_field_documentation_basic() {
    let doc_text = "This is a basic field description.";
    let result = parse_field_documentation(doc_text, "test_field").unwrap();

    assert_eq!(result.0.name, "test_field");
    assert_eq!(result.0.description, "This is a basic field description.");
    assert_eq!(result.0.default_value, None);
    assert_eq!(result.0.notes, None);
    assert_eq!(result.0.deprecated, None);
    assert_eq!(result.0.toml_example, None);
}

#[test]
fn test_parse_field_documentation_with_metadata() {
    let doc_text = r#"This is a field with metadata.
---
@default: `"test_value"`
@notes:
  - This is a note.
  - This is another note.
@deprecated: This field is deprecated.
@toml_example: |
  key = "value"
  other = 123"#;

    let result = parse_field_documentation(doc_text, "test_field").unwrap();

    assert_eq!(result.0.name, "test_field");
    assert_eq!(result.0.description, "This is a field with metadata.");
    assert_eq!(result.0.default_value, Some("`\"test_value\"`".to_string()));
    assert_eq!(
        result.0.notes,
        Some(vec![
            "This is a note.".to_string(),
            "This is another note.".to_string()
        ])
    );
    assert_eq!(
        result.0.deprecated,
        Some("This field is deprecated.".to_string())
    );
    assert_eq!(
        result.0.toml_example,
        Some("key = \"value\"\nother = 123".to_string())
    );
}

#[test]
fn test_parse_field_documentation_multiline_default() {
    let doc_text = r#"Multi-line field description.
---
@default: Derived from [`BurnchainConfig::mode`] ([`CHAIN_ID_MAINNET`] for `mainnet`,
  [`CHAIN_ID_TESTNET`] otherwise).
@notes:
  - Warning: Do not modify this unless you really know what you're doing."#;

    let result = parse_field_documentation(doc_text, "test_field").unwrap();

    assert_eq!(result.0.name, "test_field");
    assert_eq!(result.0.description, "Multi-line field description.");
    assert!(result.0.default_value.is_some());
    let default_val = result.0.default_value.unwrap();
    assert!(default_val.contains("Derived from"));
    assert!(default_val.contains("CHAIN_ID_MAINNET"));
    assert_eq!(
        result.0.notes,
        Some(vec![
            "Warning: Do not modify this unless you really know what you're doing.".to_string()
        ])
    );
}

#[test]
fn test_parse_field_documentation_multiline_notes() {
    let doc_text = r#"Field with multi-line notes.
---
@notes:
  - This is a single line note.
  - This is a multi-line note that
    spans across multiple lines
    and should be treated as one note.
  - Another single line note.
  - Final multi-line note that also
    continues on the next line."#;

    let result = parse_field_documentation(doc_text, "test_field").unwrap();
    let (field_doc, _) = result;

    assert_eq!(field_doc.name, "test_field");
    assert_eq!(field_doc.description, "Field with multi-line notes.");

    let notes = field_doc.notes.expect("Should have notes");
    assert_eq!(notes.len(), 4);
    assert_eq!(notes[0], "This is a single line note.");
    assert_eq!(
        notes[1],
        "This is a multi-line note that spans across multiple lines and should be treated as one note."
    );
    assert_eq!(notes[2], "Another single line note.");
    assert_eq!(
        notes[3],
        "Final multi-line note that also continues on the next line."
    );
}

#[test]
fn test_parse_field_documentation_multiline_notes_mixed_bullets() {
    let doc_text = r#"Field with mixed bullet styles.
---
@notes:
  - First note with dash.
  * Second note with asterisk
    that continues.
  - Third note with dash again
    and multiple continuation lines
    should all be joined together."#;

    let result = parse_field_documentation(doc_text, "test_field").unwrap();
    let (field_doc, _) = result;

    let notes = field_doc.notes.expect("Should have notes");
    assert_eq!(notes.len(), 3);
    assert_eq!(notes[0], "First note with dash.");
    assert_eq!(notes[1], "Second note with asterisk that continues.");
    assert_eq!(
        notes[2],
        "Third note with dash again and multiple continuation lines should all be joined together."
    );
}

#[test]
fn test_parse_field_documentation_notes_with_empty_lines() {
    let doc_text = r#"Field with notes that have empty lines.
---
@notes:
  - First note.

  - Second note after empty line
    with continuation.

  - Third note after another empty line."#;

    let result = parse_field_documentation(doc_text, "test_field").unwrap();
    let (field_doc, _) = result;

    let notes = field_doc.notes.expect("Should have notes");
    assert_eq!(notes.len(), 3);
    assert_eq!(notes[0], "First note.");
    assert_eq!(notes[1], "Second note after empty line with continuation.");
    assert_eq!(notes[2], "Third note after another empty line.");
}

#[test]
fn test_parse_field_documentation_notes_with_intralinks() {
    let doc_text = r#"Field with notes containing intralinks.
---
@notes:
  - If [`SomeConfig::field`] is `true`, the node will
    use the default estimator.
  - See [`CONSTANT_VALUE`] for details."#;

    let result = parse_field_documentation(doc_text, "test_field").unwrap();
    let (field_doc, referenced_constants) = result;

    let notes = field_doc.notes.expect("Should have notes");
    assert_eq!(notes.len(), 2);
    assert_eq!(
        notes[0],
        "If [`SomeConfig::field`] is `true`, the node will use the default estimator."
    );
    assert_eq!(notes[1], "See [`CONSTANT_VALUE`] for details.");

    // Check that constants were collected
    assert!(referenced_constants.contains("CONSTANT_VALUE"));
}

#[test]
fn test_parse_field_documentation_empty_notes() {
    let doc_text = r#"Field with empty notes.
---
@default: `None`
@notes:


@deprecated: Old field"#;

    let result = parse_field_documentation(doc_text, "test_field").unwrap();

    assert_eq!(result.0.name, "test_field");
    assert_eq!(result.0.description, "Field with empty notes.");
    assert_eq!(result.0.default_value, Some("`None`".to_string()));
    assert_eq!(result.0.notes, None); // Empty notes should result in None
    assert_eq!(result.0.deprecated, Some("Old field".to_string()));
}

#[test]
fn test_parse_field_documentation_bullet_points_cleanup() {
    let doc_text = r#"Field with bullet notes.
---
@notes:
  - First bullet point
  * Second bullet point
  - Third bullet point"#;

    let result = parse_field_documentation(doc_text, "test_field").unwrap();

    assert_eq!(
        result.0.notes,
        Some(vec![
            "First bullet point".to_string(),
            "Second bullet point".to_string(),
            "Third bullet point".to_string()
        ])
    );
}

#[test]
fn test_parse_field_documentation_complex_annotations() {
    let doc_text = r#"Complex field with all annotation types and edge cases.

This description spans multiple lines
and includes various formatting.
---
@default: Dynamically determined.
  - If the `[miner]` section *is present* in the config file, the [`NodeConfig::seed`] is used.
  - If the `[miner]` section *is not present*, this is `None`, and mining operations will fail.
@notes:
  - **Warning:** This field requires careful configuration.
  - Only relevant if [`NodeConfig::miner`] is `true`.
  - Units: milliseconds.
@deprecated: Use `new_field` instead. This will be removed in version 2.0.
@toml_example: |
  # This is a comment
  [section]
  field = "value"

  # Another section
  [other_section]
  number = 42
  array = ["a", "b", "c"]"#;

    let result = parse_field_documentation(doc_text, "complex_field").unwrap();

    assert_eq!(result.0.name, "complex_field");
    assert!(result.0.description.contains("Complex field"));
    assert!(result.0.description.contains("multiple lines"));

    let default_val = result.0.default_value.unwrap();
    assert!(default_val.contains("Dynamically determined"));
    assert!(default_val.contains("NodeConfig::seed"));

    let notes = result.0.notes.unwrap();
    assert_eq!(notes.len(), 3);
    assert!(notes[0].contains("Warning"));
    assert!(notes[1].contains("Only relevant"));
    assert!(notes[2].contains("Units: milliseconds"));

    assert!(
        result
            .0
            .deprecated
            .unwrap()
            .contains("Use `new_field` instead")
    );

    let toml_example = result.0.toml_example.unwrap();
    assert!(toml_example.contains("# This is a comment"));
    assert!(toml_example.contains("[section]"));
    assert!(toml_example.contains("array = [\"a\", \"b\", \"c\"]"));
}

#[test]
fn test_parse_field_documentation_only_description() {
    let doc_text = "Just a simple description with no metadata separator.";
    let result = parse_field_documentation(doc_text, "simple_field").unwrap();

    assert_eq!(result.0.name, "simple_field");
    assert_eq!(
        result.0.description,
        "Just a simple description with no metadata separator."
    );
    assert_eq!(result.0.default_value, None);
    assert_eq!(result.0.notes, None);
    assert_eq!(result.0.deprecated, None);
    assert_eq!(result.0.toml_example, None);
}

#[test]
fn test_parse_field_documentation_with_constants() {
    let doc_text = r#"This field uses [`DEFAULT_TIMEOUT`] milliseconds.
---
@default: [`DEFAULT_VALUE`]
@notes:
  - See [`MAX_RETRIES`] for retry limit.
  - Warning about [`DEPRECATED_CONST`]."#;

    let result = parse_field_documentation(doc_text, "test_field").unwrap();

    // Check that constants were collected
    assert_eq!(result.1.len(), 4);
    assert!(result.1.contains("DEFAULT_TIMEOUT"));
    assert!(result.1.contains("DEFAULT_VALUE"));
    assert!(result.1.contains("MAX_RETRIES"));
    assert!(result.1.contains("DEPRECATED_CONST"));

    // Check that normal parsing still works
    assert_eq!(result.0.name, "test_field");
    assert!(result.0.description.contains("DEFAULT_TIMEOUT"));
    assert!(result.0.default_value.is_some());
    assert!(result.0.notes.is_some());
}

#[test]
fn documentation_without_separator_is_description() {
    let (doc, constants) = parse_field_documentation("  a\n@default: b\n ", "f").unwrap();
    assert_eq!(doc.description, "a\n@default: b");
    assert_eq!(doc.default_value, None);
    assert_eq!(doc.required, None);
    assert_eq!(doc.units, None);
    assert_eq!(constants.len(), 0);
}

#[test]
fn documentation_splits_at_separators() {
    let text = "desc\n---\n@default: a\n---\n@units: ms";
    let (doc, _) = parse_field_documentation(text, "f").unwrap();
    assert_eq!(doc.description, "desc");
    assert_eq!(doc.default_value, Some("a".to_string()));
    assert_eq!(doc.units, None);

    let (doc, _) = parse_field_documentation("desc ----\n@units: ms", "f").unwrap();
    assert_eq!(doc.description, "desc");
    assert_eq!(doc.units, Some("ms".to_string()));
}

#[test]
fn required_is_true_where_it_says_true() {
    for (text, expected) in [
        ("true", Some(true)),
        ("  true  ", Some(true)),
        ("false", Some(false)),
        ("True", Some(false)),
        ("yes", Some(false)),
        ("true false", Some(false)),
        ("", None),
    ] {
        let doc_text = format!("d\n---\n@required: {}", text);
        let (doc, _) = parse_field_documentation(&doc_text, "f").unwrap();
        assert_eq!(doc.required, expected, "{:?}", text);
    }
}

#[test]
fn notes_are_trimmed_and_begin_with_bullets() {
    let text = "d\n---\n@notes:\n  intro\n  -   one  \n    more\n  -\n  * two";
    let (doc, _) = parse_field_documentation(text, "f").unwrap();
    assert_eq!(doc.notes, Some(vec!["one more -".to_string(), "two".to_string()]));

    let (doc, _) = parse_field_documentation("d\n---\n@notes: no bullet", "f").unwrap();
    assert_eq!(doc.notes, None);
}

#[test]
fn constants_come_from_all_annotations_but_required() {
    let text = "[`A`]\n---\n@default: [`B`]\n@notes:\n  - [`C`]\n@deprecated: [`D`]\n\
                @toml_example: |\n  [`E`]\n@required: [`F`]\n@units: [`G`]";
    let (doc, constants) = parse_field_documentation(text, "f").unwrap();
    assert_eq!(constants.len(), 6);
    for name in ["A", "B", "C", "D", "E", "G"] {
        assert!(constants.contains(name), "{}", name);
    }
    assert!(!constants.contains("F"));
    assert_eq!(doc.units, Some("[`G`]".to_string()));
    assert_eq!(doc.required, Some(false));
}

#[test]
fn indentation_in_the_metadata_is_told() {
    assert!(field_cuts("d"));
    assert!(field_cuts("d\n---\n@default:\n  a\n  b"));
    assert!(!field_cuts("d\n---\n@default:\n  a\n\u{3000}b"));
    assert!(!field_cuts("d\n---\n@units: |\n a\n\u{a0}b"));
    assert!(field_cuts("d\n---\n@other:\n  a\n\u{3000}b"));
}

#[test]
fn required_is_warned_of_where_it_is_no_truth_value() {
    for text in ["", "  ", "true", " true ", "false", "\tfalse\n"] {
        assert_eq!(required_warning(text, "f"), None, "{:?}", text);
    }
    for text in ["yes", "True", "true false", "1"] {
        let expected = format!(
            "Warning: Invalid @required value '{}' for field 'f', defaulting to false",
            text
        );
        assert_eq!(required_warning(&format!("  {} ", text), "f"), Some(expected));
    }
}

#[test]
fn documentation_is_warned_of_by_its_required() {
    assert_eq!(field_warning("d", "f"), None);
    assert_eq!(field_warning("d\n@required: yes", "f"), None);
    assert_eq!(field_warning("d\n---\n@required: true", "f"), None);
    assert_eq!(field_warning("d\n---\n@required:", "f"), None);
    assert_eq!(
        field_warning("d\n---\n@required: maybe", "f"),
        Some(
            "Warning: Invalid @required value 'maybe' for field 'f', defaulting to false"
                .to_string()
        )
    );
}
