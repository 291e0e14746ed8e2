//! Laws on texts.

use vstd::prelude::*;
use vstd::utf8::encode_utf8;

use crate::text::{
    after_bytes, before, begins_with, byte_len, cuts_at, decimal, ends_with, first_at, indent,
    is_blank, is_first_at, is_white, joined, lemma_after_bytes, lemma_before_from,
    lemma_byte_len_concat, lemma_first_at, lemma_leading_white_is, lemma_line_end_is,
    lemma_trimmed, lemma_trimmed_end_is, lines_of, occurs, occurs_at, trimmed, trimmed_start,
    view_of, views, without_newlines,
};

verus! {

/// A text is blank if and only if all of its characters are white.
pub proof fn law_blank_is_white(text: Seq<char>)
    ensures
        is_blank(text) <==> forall|i: int| 0 <= i < text.len() ==> is_white(#[trigger] text[i]),
{
}

/// What is left at the start of a text is what stands behind its leading white space. The
/// indentation is the number of bytes of that white space.
pub proof fn law_start_is_trimmed(white: Seq<char>, rest: Seq<char>)
    requires
        forall|i: int| 0 <= i < white.len() ==> is_white(#[trigger] white[i]),
        rest.len() > 0 ==> !is_white(rest[0]),
    ensures
        trimmed_start(white + rest) == rest,
        indent(white + rest) == byte_len(white),
{
    let text = white + rest;
    let n = white.len() as int;
    assert forall|i: int| 0 <= i < n implies is_white(#[trigger] text[i]) by {
        assert(text[i] == white[i]);
    }
    if n < text.len() {
        assert(text[n] == rest[0]);
    }
    lemma_leading_white_is(text, n);
    assert(text.skip(n) =~= rest);
    assert(text.take(n) =~= white);
}

/// Trimming leaves what stands between the white space at either end.
pub proof fn law_ends_are_trimmed(white: Seq<char>, core: Seq<char>, end: Seq<char>)
    requires
        forall|i: int| 0 <= i < white.len() ==> is_white(#[trigger] white[i]),
        forall|i: int| 0 <= i < end.len() ==> is_white(#[trigger] end[i]),
        core.len() > 0 ==> !is_white(core[0]) && !is_white(core.last()),
    ensures
        trimmed(white + core + end) == core,
{
    let text = white + core + end;
    if core.len() == 0 {
        assert forall|i: int| 0 <= i < text.len() implies is_white(#[trigger] text[i]) by {
            if i < white.len() {
                assert(text[i] == white[i]);
            } else {
                assert(text[i] == end[i - white.len()]);
            }
        }
        lemma_trimmed(text);
        assert(trimmed(text) =~= core);
    } else {
        let rest = core + end;
        assert(text =~= white + rest);
        law_start_is_trimmed(white, rest);
        let n = core.len() as int;
        assert forall|i: int| n <= i < rest.len() implies is_white(#[trigger] rest[i]) by {
            assert(rest[i] == end[i - n]);
        }
        assert(rest[n - 1] == core.last());
        lemma_trimmed_end_is(rest, n);
        assert(rest.take(n) =~= core);
    }
}

/// Lines end with a line feed, or with a carriage return and a line feed. The last one need not
/// end with any.
pub proof fn law_lines_are_parted(line: Seq<char>, rest: Seq<char>)
    requires
        !line.contains('\n'),
    ensures
        lines_of(seq![]).len() == 0,
        line.len() > 0 ==> lines_of(line) == seq![line],
        (line.len() == 0 || line.last() != '\r') ==> lines_of(line + seq!['\n'] + rest) == seq![line]
            + lines_of(rest),
        lines_of(line + seq!['\r', '\n'] + rest) == seq![line] + lines_of(rest),
{
    lemma_line_end_is(line, line.len() as int);
    let first = line + seq!['\n'] + rest;
    let n = line.len() as int;
    assert forall|i: int| 0 <= i < n implies #[trigger] first[i] != '\n' by {
        assert(first[i] == line[i]);
    }
    lemma_line_end_is(first, n);
    assert(first.take(n) =~= line);
    assert(first.skip(n + 1) =~= rest);
    let second = line + seq!['\r', '\n'] + rest;
    assert forall|i: int| 0 <= i < n + 1 implies #[trigger] second[i] != '\n' by {
        if i < n {
            assert(second[i] == line[i]);
        }
    }
    lemma_line_end_is(second, n + 1);
    assert(second.take(n + 1) =~= line.push('\r'));
    assert(line.push('\r').drop_last() =~= line);
    assert(second.skip(n + 2) =~= rest);
}

/// Joining two lists of texts is to join each, and to put the separator between the two.
pub proof fn law_joined_in_parts(a: Seq<Seq<char>>, b: Seq<Seq<char>>, separator: Seq<char>)
    ensures
        joined(seq![], separator).len() == 0,
        a.len() == 1 ==> joined(a, separator) == a[0],
        a.len() > 0 && b.len() > 0 ==> joined(a + b, separator) == joined(a, separator) + separator
            + joined(b, separator),
    decreases b.len(),
{
    if a.len() > 0 && b.len() > 0 {
        let whole = a + b;
        assert(whole.drop_last() =~= a + b.drop_last());
        assert(whole.last() == b.last());
        if b.len() == 1 {
            assert(a + b.drop_last() =~= a);
            assert(joined(whole, separator) =~= joined(a, separator) + separator + joined(
                b,
                separator,
            ));
        } else {
            law_joined_in_parts(a, b.drop_last(), separator);
            assert(joined(whole, separator) =~= joined(a, separator) + separator + joined(
                b,
                separator,
            ));
        }
    }
}

/// A text holds a pattern if and only if it is the pattern with something before and behind it.
pub proof fn law_occurrence_is_part(text: Seq<char>, pattern: Seq<char>)
    ensures
        occurs(text, pattern) <==> exists|start: Seq<char>, end: Seq<char>|
            text == #[trigger] (start + pattern + end),
        begins_with(text, pattern) <==> exists|end: Seq<char>| text == #[trigger] (pattern + end),
        ends_with(text, pattern) <==> exists|start: Seq<char>| text == #[trigger] (start + pattern),
{
    if occurs(text, pattern) {
        let i = choose|i: int| occurs_at(text, pattern, i);
        let start = text.take(i);
        let end = text.skip(i + pattern.len());
        assert(text =~= start + pattern + end);
    }
    if exists|start: Seq<char>, end: Seq<char>| text == #[trigger] (start + pattern + end) {
        let (start, end) = choose|start: Seq<char>, end: Seq<char>|
            text == #[trigger] (start + pattern + end);
        let n = start.len() as int;
        assert(text.subrange(n, n + pattern.len()) =~= pattern);
        assert(occurs_at(text, pattern, n));
    }
    if begins_with(text, pattern) {
        assert(text =~= pattern + text.skip(pattern.len() as int));
    }
    if exists|end: Seq<char>| text == #[trigger] (pattern + end) {
        assert(text.subrange(0, pattern.len() as int) =~= pattern);
    }
    let n = text.len() - pattern.len();
    if ends_with(text, pattern) {
        assert(text =~= text.take(n) + pattern);
    }
    if exists|start: Seq<char>| text == #[trigger] (start + pattern) {
        let start = choose|start: Seq<char>| text == #[trigger] (start + pattern);
        assert(text.subrange(n, n + pattern.len()) =~= pattern);
    }
}

/// The first place of a pattern is the one before which the pattern does not stand.
pub proof fn law_first_place_is_first(text: Seq<char>, pattern: Seq<char>, i: int)
    requires
        0 <= i <= text.len() - pattern.len(),
        text.subrange(i, i + pattern.len()) == pattern,
        forall|j: int|
            0 <= j < i ==> #[trigger] text.subrange(j, j + pattern.len()) != pattern,
    ensures
        first_at(text, pattern) == i,
{
    assert forall|j: int| 0 <= j < i implies !occurs_at(text, pattern, j) by {
        assert(text.subrange(j, j + pattern.len()) != pattern);
    }
    assert(is_first_at(text, pattern, i));
    lemma_first_at(text, pattern, i);
}

/// The digits of a number are those of a tenth of it, and its last digit.
pub proof fn law_decimal_digits(n: nat, digit: nat)
    requires
        digit < 10,
    ensures
        n == 0 ==> decimal(digit) == seq![('0' as nat + digit) as char],
        n > 0 ==> decimal(10 * n + digit) == decimal(n).push(('0' as nat + digit) as char),
{
    if n > 0 {
        assert((10 * n + digit) / 10 == n && (10 * n + digit) % 10 == digit);
    }
}

/// Texts are ordered by the first character in which they differ, and a text comes before those
/// that go on from it.
pub proof fn law_order_of_texts(
    common: Seq<char>,
    x: char,
    y: char,
    a: Seq<char>,
    b: Seq<char>,
)
    ensures
        x != y ==> before(common + seq![x] + a, common + seq![y] + b) == (x < y),
        before(common, common + seq![x] + a),
        !before(common + a, common),
{
    let n = common.len() as int;
    let left = common + seq![x] + a;
    let right = common + seq![y] + b;
    assert(left.take(n) =~= common && right.take(n) =~= common);
    assert(left.skip(n) =~= seq![x] + a && right.skip(n) =~= seq![y] + b);
    lemma_before_from(left, right, n);
    assert(common.take(n) =~= common);
    assert(common.skip(n).len() == 0);
    lemma_before_from(common, left, n);
    assert((common + a).take(n) =~= common);
    lemma_before_from(common + a, common, n);
}

/// Without the line feeds at its end a text is what stands before them.
pub proof fn law_line_feeds_are_dropped(core: Seq<char>, feeds: Seq<char>)
    requires
        core.len() > 0 ==> core.last() != '\n',
        forall|i: int| 0 <= i < feeds.len() ==> #[trigger] feeds[i] == '\n',
    ensures
        without_newlines(core + feeds) == core,
    decreases feeds.len(),
{
    let text = core + feeds;
    if feeds.len() == 0 {
        assert(text =~= core);
    } else {
        assert(text.last() == feeds[feeds.len() - 1]);
        assert(text.drop_last() =~= core + feeds.drop_last());
        law_line_feeds_are_dropped(core, feeds.drop_last());
    }
}

/// Behind the bytes of the start of a text stands the rest of it.
pub proof fn law_bytes_are_cut(start: Seq<char>, rest: Seq<char>)
    ensures
        cuts_at(start + rest, byte_len(start)),
        after_bytes(start + rest, byte_len(start)) == rest,
{
    let text = start + rest;
    let n = start.len() as int;
    assert(text.take(n) =~= start);
    lemma_after_bytes(text, n);
    assert(text.skip(n) =~= rest);
}

/// A character takes one to four bytes, by its code point, and a text as many as its characters
/// together.
pub proof fn law_bytes_of_texts(a: Seq<char>, b: Seq<char>, c: char)
    ensures
        byte_len(seq![]) == 0,
        byte_len(a + b) == byte_len(a) + byte_len(b),
        byte_len(seq![c]) == (if c <= '\u{7f}' {
            1
        } else if c <= '\u{7ff}' {
            2
        } else if c <= '\u{ffff}' {
            3
        } else {
            4int
        }),
{
    lemma_byte_len_concat(a, b);
    reveal_with_fuel(encode_utf8, 2);
}

/// The views of texts are those of each text.
pub proof fn law_texts_are_viewed(texts: Seq<&str>, text: String)
    ensures
        views(texts) == Seq::new(texts.len(), |i: int| texts[i]@),
        view_of(Some(text)) == Some(text@),
        view_of(None) is None,
{
    assert(views(texts) =~= Seq::new(texts.len(), |i: int| texts[i]@));
}

} // verus!
