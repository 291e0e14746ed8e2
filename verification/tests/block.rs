//! Literal and folded blocks.

use config_docs::block::{
    block_cuts_cleanly, parse_folded_block_scalar, parse_literal_block_scalar,
};

#[test]
fn literal_block_keeps_line_breaks_and_relative_indentation() {
    let lines = ["  a", "    b", "", "  c"];
    assert_eq!(parse_literal_block_scalar(&lines, 0), "a\n  b\n\nc");
}

#[test]
fn literal_block_drops_blank_lines_at_its_end() {
    assert_eq!(parse_literal_block_scalar(&["  a", "", "   ", ""], 0), "a");
    assert_eq!(parse_literal_block_scalar(&["", "  a"], 0), "\na");
}

#[test]
fn literal_block_takes_less_indented_lines_as_they_are() {
    assert_eq!(parse_literal_block_scalar(&["    a", "  b", "      c "], 0), "a\nb\n  c ");
}

#[test]
fn block_without_content_is_empty() {
    assert_eq!(parse_literal_block_scalar(&[], 0), "");
    assert_eq!(parse_literal_block_scalar(&["", "  "], 0), "");
    assert_eq!(parse_folded_block_scalar(&[], 0), "");
    assert_eq!(parse_folded_block_scalar(&["", "  "], 0), "");
}

#[test]
fn folded_block_joins_lines() {
    assert_eq!(parse_folded_block_scalar(&["  a", "  b", "  c"], 0), "a b c");
    assert_eq!(parse_folded_block_scalar(&["  a", " b", "c"], 0), "a b c");
}

#[test]
fn folded_block_parts_paragraphs() {
    assert_eq!(
        parse_folded_block_scalar(&["  a", "  b", "", "", "  c"], 0),
        "a b\n\nc"
    );
}

#[test]
fn folded_block_keeps_more_indented_lines() {
    assert_eq!(
        parse_folded_block_scalar(&["  a", "    x", "", "    y", "  b"], 0),
        "a\n  x\n\n  y\nb"
    );
}

#[test]
fn folded_block_ends_with_one_line_feed_at_most() {
    assert_eq!(parse_folded_block_scalar(&["  a", "", ""], 0), "a\n");
    assert_eq!(parse_folded_block_scalar(&["  a", "    x", "", ""], 0), "a\n  x\n");
    assert_eq!(parse_folded_block_scalar(&["  a"], 0), "a");
}

#[test]
fn indentation_can_be_of_wide_white_space() {
    let lines = ["\u{3000}a", "\u{3000}\u{3000}b", "   c"];
    assert!(block_cuts_cleanly(&lines));
    assert_eq!(parse_literal_block_scalar(&lines, 0), "a\n\u{3000}b\nc");
}

#[test]
fn indentation_that_ends_inside_a_character_is_told() {
    assert!(!block_cuts_cleanly(&["  a", "\u{3000}b"]));
    assert!(!block_cuts_cleanly(&[" a", "\u{a0}b"]));
    assert!(block_cuts_cleanly(&["  a", "\u{a0}b"]));
    assert!(block_cuts_cleanly(&["    a", "\u{3000}b"]));
    assert!(block_cuts_cleanly(&["  a", "\u{3000}"]));
    assert!(block_cuts_cleanly(&[]));
}
