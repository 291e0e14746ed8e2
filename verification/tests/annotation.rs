//! Reading annotations.

use config_docs::annotation::{
    annotation_cuts, collect_annotation_block_lines, extract_annotation,
};

#[test]
fn test_extract_annotation_basic() {
    let metadata = "@default: `\"test\"`\n@notes: Some notes here.";

    let default = extract_annotation(metadata, "default");
    let notes = extract_annotation(metadata, "notes");
    let missing = extract_annotation(metadata, "missing");

    assert_eq!(default, Some("`\"test\"`".to_string()));
    assert_eq!(notes, Some("Some notes here.".to_string()));
    assert_eq!(missing, None);
}

#[test]
fn test_extract_annotation_toml_example() {
    let metadata = r#"@toml_example: |
  key = "value"
  number = 42
  nested = { a = 1, b = 2 }"#;

    let result = extract_annotation(metadata, "toml_example");
    assert!(result.is_some());
    let toml = result.unwrap();
    assert!(toml.contains("key = \"value\""));
    assert!(toml.contains("number = 42"));
    assert!(toml.contains("nested = { a = 1, b = 2 }"));
}

#[test]
fn test_extract_annotation_multiline() {
    let metadata = r#"@notes:
  - First note with important details.
  - Second note with more info.
@default: `None`"#;

    let notes = extract_annotation(metadata, "notes");
    let default = extract_annotation(metadata, "default");

    assert!(notes.is_some());
    let notes_text = notes.unwrap();
    assert!(notes_text.contains("First note"));
    assert!(notes_text.contains("Second note"));
    assert_eq!(default, Some("`None`".to_string()));
}

#[test]
fn test_extract_annotation_edge_cases() {
    // Test with annotation at the end
    let metadata1 = "@default: `value`";
    assert_eq!(
        extract_annotation(metadata1, "default"),
        Some("`value`".to_string())
    );

    // Test with empty annotation
    let metadata2 = "@default:\n@notes: something";
    assert_eq!(extract_annotation(metadata2, "default"), None);

    // Test with annotation containing colons
    let metadata3 = "@notes: URL: https://example.com:8080/path";
    let notes = extract_annotation(metadata3, "notes");
    assert_eq!(
        notes,
        Some("URL: https://example.com:8080/path".to_string())
    );

    // Test with whitespace-only annotation
    let metadata_whitespace = "@default:      \n@notes: something";
    assert_eq!(
        extract_annotation(metadata_whitespace, "default"),
        None,
        "Annotation with only whitespace should be None"
    );

    // Test with annotation containing only newline
    let metadata_newline = "@default:\n@notes: something";
    assert_eq!(
        extract_annotation(metadata_newline, "default"),
        None,
        "Annotation with only newline should be None"
    );
}

#[test]
fn test_extract_annotation_overlapping_patterns() {
    let metadata = r#"@config_value: `"not_default"`
@default: `"actual_default"`
@notes_info: Some other annotation
@notes: Actual notes here
@deprecated_old: Old deprecation
@deprecated: Current deprecation"#;

    // Should extract the correct annotations, not get confused by similar names
    assert_eq!(
        extract_annotation(metadata, "default"),
        Some("`\"actual_default\"`".to_string())
    );
    assert_eq!(
        extract_annotation(metadata, "notes"),
        Some("Actual notes here".to_string())
    );
    assert_eq!(
        extract_annotation(metadata, "deprecated"),
        Some("Current deprecation".to_string())
    );

    // Should not find non-existent annotations
    assert_eq!(extract_annotation(metadata, "nonexistent"), None);
    assert_eq!(extract_annotation(metadata, "missing"), None);
}

#[test]
fn annotation_reads_text_behind_marker() {
    assert_eq!(extract_annotation("  @units:   ms  ", "units"), Some("ms".to_string()));
    assert_eq!(extract_annotation("note @units: ms", "units"), Some("ms".to_string()));
    assert_eq!(extract_annotation("@units", "units"), None);
    assert_eq!(extract_annotation("", "units"), None);
}

#[test]
fn annotation_reads_block_below_marker() {
    let metadata = "@default:\n    a\n\n      b\n  c";
    assert_eq!(extract_annotation(metadata, "default"), Some("a\n  b\nc".to_string()));
    let metadata = "@default: x\n    a\n      b";
    assert_eq!(extract_annotation(metadata, "default"), Some("x\na\n  b".to_string()));
}

#[test]
fn annotation_reads_literal_block() {
    let metadata = "@toml_example: | ignored\n  a = 1\n\n    b = 2\n";
    assert_eq!(
        extract_annotation(metadata, "toml_example"),
        Some("a = 1\n\n  b = 2".to_string())
    );
    assert_eq!(extract_annotation("@toml_example: |\n  \n", "toml_example"), None);
}

#[test]
fn annotation_reads_folded_block() {
    let metadata = "@notes: >\n  one\n  two\n\n  three\n@units: ms";
    assert_eq!(extract_annotation(metadata, "notes"), Some("one two\n\nthree".to_string()));
    assert_eq!(extract_annotation("@notes: >\n", "notes"), None);
}

#[test]
fn annotation_depends_on_its_own_lines() {
    let own = "@default: a\n  b";
    let alone = extract_annotation(own, "default");
    assert_eq!(alone, Some("a\nb".to_string()));
    for later in ["\n@units: ms", "\n@notes:\n  - x"] {
        let whole = format!("before\n@units: s\n{}{}", own, later);
        assert_eq!(extract_annotation(&whole, "default"), alone);
    }
}

#[test]
fn block_goes_up_to_the_next_annotation() {
    let lines = ["@a: 1", "  x", "  @b: 2", "", "@c: 3", "y"];
    assert_eq!(
        collect_annotation_block_lines(&lines, 1, lines[0]),
        vec!["  x", "  @b: 2", ""]
    );
    assert_eq!(collect_annotation_block_lines(&lines, 5, lines[4]), vec!["y"]);
    assert_eq!(
        collect_annotation_block_lines(&lines, 6, lines[0]),
        Vec::<&str>::new()
    );
    assert_eq!(
        collect_annotation_block_lines(&lines, 9, lines[0]),
        Vec::<&str>::new()
    );
}

#[test]
fn block_ends_where_indentation_is_less() {
    let lines = ["  @a: 1", "   x", "  y", " z", "  w"];
    assert_eq!(
        collect_annotation_block_lines(&lines, 1, lines[0]),
        vec!["   x", "  y"]
    );
}

#[test]
fn indentation_of_an_annotation_is_told() {
    assert!(annotation_cuts("@a:\n  x\n  y", "a"));
    assert!(!annotation_cuts("@a:\n  x\n\u{3000}y", "a"));
    assert!(annotation_cuts("@a:\n  x\n\u{3000}y", "b"));
}

#[test]
fn line_breaks_do_not_matter_to_annotations() {
    let lines = ["@default: a", "  b", "@units: ms"];
    for line_break in ["\n", "\r\n"] {
        let metadata = lines.join(line_break);
        assert_eq!(extract_annotation(&metadata, "default"), Some("a\nb".to_string()));
        assert_eq!(extract_annotation(&metadata, "units"), Some("ms".to_string()));
    }
}
