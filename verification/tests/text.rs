//! Text as characters, bytes and lines.

use config_docs::text::{
    blank, contains, cuts, decimal_of, find, indent_of, is_whitespace, join, lines, precedes, same,
    skip_bytes, starts_with, strip_suffix, trim, trim_newlines, trim_start,
};

fn samples() -> Vec<&'static str> {
    vec![
        "",
        " ",
        "a",
        " a ",
        "\t\u{a0}x y\u{3000}\n",
        "\u{2003}\u{85}",
        "a\nb",
        "a\r\nb\r\n",
        "\n",
        "\n\na\n\n",
        "a\rb\r",
        "x\r",
        "---",
        "größe ---- ß",
        "\u{200b}zero width\u{200b}",
        "\u{feff}mark",
        "日本\n 語\r\n",
    ]
}

#[test]
fn white_space_is_that_of_unicode() {
    let mut c: u32 = 0;
    while c <= 0x10ffff {
        if let Some(c) = char::from_u32(c) {
            assert_eq!(is_whitespace(c), c.is_whitespace(), "{:?}", c);
        }
        c += 1;
    }
}

#[test]
fn trimming_takes_white_space_off_the_ends() {
    for text in samples() {
        assert_eq!(trim(text), text.trim(), "{:?}", text);
        assert_eq!(trim_start(text), text.trim_start(), "{:?}", text);
        assert_eq!(trim_newlines(text), text.trim_end_matches('\n'), "{:?}", text);
        assert_eq!(blank(text), text.trim().is_empty(), "{:?}", text);
    }
}

#[test]
fn lines_end_with_line_feeds() {
    for text in samples() {
        assert_eq!(lines(text), text.lines().collect::<Vec<&str>>(), "{:?}", text);
    }
}

#[test]
fn joined_lines_are_read_back() {
    let texts = vec!["a", "", " b", "c"];
    let whole = join(&texts, "\n");
    assert_eq!(whole, "a\n\n b\nc");
    assert_eq!(lines(&whole), texts);
    assert_eq!(join(&vec![], ", "), "");
    assert_eq!(join(&vec!["x"], ", "), "x");
    assert_eq!(join(&vec!["", ""], ", "), ", ");
}

#[test]
fn patterns_are_found_where_they_stand_first() {
    for text in samples() {
        for pattern in ["", "a", "---", "ß", "\n", "a\n", "語"] {
            let chars = text.find(pattern).map(|at| text[..at].chars().count());
            assert_eq!(find(text, pattern), chars, "{:?} in {:?}", pattern, text);
            assert_eq!(contains(text, pattern), text.contains(pattern));
            assert_eq!(starts_with(text, pattern), text.starts_with(pattern));
            assert_eq!(strip_suffix(text, pattern), text.strip_suffix(pattern));
            assert_eq!(same(text, pattern), text == pattern);
        }
    }
}

#[test]
fn indentation_is_counted_in_bytes() {
    for text in samples() {
        assert_eq!(indent_of(text), text.len() - text.trim_start().len(), "{:?}", text);
    }
    assert_eq!(indent_of("  x"), 2);
    assert_eq!(indent_of("\u{a0}x"), 2);
    assert_eq!(indent_of("\u{3000}x"), 3);
    assert_eq!(indent_of(" \u{3000} "), 5);
}

#[test]
fn bytes_are_skipped_up_to_a_character() {
    for text in samples() {
        for n in 0..text.len() + 1 {
            assert_eq!(cuts(text, n), text.is_char_boundary(n), "{:?} at {}", text, n);
            if text.is_char_boundary(n) {
                assert_eq!(skip_bytes(text, n), &text[n..]);
            }
        }
    }
}

#[test]
fn numbers_are_written_in_decimal() {
    for n in [0, 1, 9, 10, 99, 100, 123, 1_000_000_007, u64::MAX] {
        assert_eq!(decimal_of(n), n.to_string());
    }
}

#[test]
fn order_is_that_of_code_points() {
    let texts = ["", "A", "B", "a", "aa", "ab", "b", "ä", "語", "\u{ffff}", "\u{10000}"];
    for a in texts {
        for b in texts {
            assert_eq!(precedes(a, b), a < b, "{:?} {:?}", a, b);
        }
    }
}
