//! Text as a sequence of characters: white space, lines, searching, joining, byte widths.

use vstd::prelude::*;
use vstd::utf8::encode_utf8;

verus! {

/// The characters with the Unicode `White_Space` property.
pub open spec fn is_white(c: char) -> bool {
    ||| '\u{9}' <= c <= '\u{d}'
    ||| c == '\u{20}'
    ||| c == '\u{85}'
    ||| c == '\u{a0}'
    ||| c == '\u{1680}'
    ||| '\u{2000}' <= c <= '\u{200a}'
    ||| c == '\u{2028}'
    ||| c == '\u{2029}'
    ||| c == '\u{202f}'
    ||| c == '\u{205f}'
    ||| c == '\u{3000}'
}

/// Whether `text` holds white space only.
pub open spec fn is_blank(text: Seq<char>) -> bool {
    forall|i: int| 0 <= i < text.len() ==> is_white(#[trigger] text[i])
}

/// How many white characters `text` begins with.
pub open spec fn leading_white(text: Seq<char>) -> nat
    decreases text.len(),
{
    if text.len() > 0 && is_white(text[0]) {
        1 + leading_white(text.drop_first())
    } else {
        0
    }
}

/// `text` without the white space that it begins with.
pub open spec fn trimmed_start(text: Seq<char>) -> Seq<char> {
    text.skip(leading_white(text) as int)
}

/// `text` without the white space that it ends with.
pub open spec fn trimmed_end(text: Seq<char>) -> Seq<char>
    decreases text.len(),
{
    if text.len() > 0 && is_white(text.last()) {
        trimmed_end(text.drop_last())
    } else {
        text
    }
}

/// `text` without the white space at either end.
pub open spec fn trimmed(text: Seq<char>) -> Seq<char> {
    trimmed_end(trimmed_start(text))
}

/// Tells whether `c` is white space.
pub fn is_whitespace(c: char) -> (white: bool)
    ensures
        white == is_white(c),
{
    ('\u{9}' <= c && c <= '\u{d}') || c == '\u{20}' || c == '\u{85}' || c == '\u{a0}' || c
        == '\u{1680}' || ('\u{2000}' <= c && c <= '\u{200a}') || c == '\u{2028}' || c == '\u{2029}'
        || c == '\u{202f}' || c == '\u{205f}' || c == '\u{3000}'
}

/// The characters of `text`, by index.
pub(crate) fn chars_of(text: &str) -> (chars: Vec<char>)
    ensures
        chars@ == text@,
{
    let mut chars: Vec<char> = Vec::new();
    for c in it: text.chars()
        invariant
            chars@ == it.seq().take(it.index()),
            it.seq() == text@,
    {
        chars.push(c);
    }
    chars
}

pub(crate) proof fn lemma_leading_white(text: Seq<char>)
    ensures
        leading_white(text) <= text.len(),
        forall|i: int| 0 <= i < leading_white(text) ==> is_white(#[trigger] text[i]),
        leading_white(text) < text.len() ==> !is_white(text[leading_white(text) as int]),
    decreases text.len(),
{
    if text.len() > 0 && is_white(text[0]) {
        lemma_leading_white(text.drop_first());
        let n = leading_white(text.drop_first());
        assert forall|i: int| 0 <= i < leading_white(text) implies is_white(#[trigger] text[i]) by {
            if i > 0 {
                assert(text[i] == text.drop_first()[i - 1]);
            }
        }
        if leading_white(text) < text.len() {
            assert(text[n as int + 1] == text.drop_first()[n as int]);
        }
    }
}

/// Only one number can be the count of leading white characters.
pub(crate) proof fn lemma_leading_white_is(text: Seq<char>, n: int)
    requires
        0 <= n <= text.len(),
        forall|i: int| 0 <= i < n ==> is_white(#[trigger] text[i]),
        n < text.len() ==> !is_white(text[n]),
    ensures
        leading_white(text) == n,
{
    lemma_leading_white(text);
    let m = leading_white(text) as int;
    if m < n {
        assert(is_white(text[m]));
    }
    if n < m {
        assert(is_white(text[n]));
    }
}

/// `text` without the white space that it begins with.
pub fn trim_start<'a>(text: &'a str) -> (rest: &'a str)
    ensures
        rest@ == trimmed_start(text@),
{
    let chars = chars_of(text);
    let mut n: usize = 0;
    while n < chars.len() && is_whitespace(chars[n])
        invariant
            n <= chars.len(),
            forall|i: int| 0 <= i < n ==> is_white(#[trigger] chars@[i]),
        decreases chars.len() - n,
    {
        n = n + 1;
    }
    proof {
        lemma_leading_white_is(text@, n as int);
    }
    text.substring_char(n, chars.len())
}

/// What is left once the white space at the end is gone: the text up to a character that is not
/// white.
pub(crate) proof fn lemma_trimmed_end_is(text: Seq<char>, n: int)
    requires
        0 <= n <= text.len(),
        forall|i: int| n <= i < text.len() ==> is_white(#[trigger] text[i]),
        n > 0 ==> !is_white(text[n - 1]),
    ensures
        trimmed_end(text) == text.take(n),
    decreases text.len(),
{
    if n < text.len() {
        assert(is_white(text[text.len() - 1]));
        assert forall|i: int| n <= i < text.drop_last().len() implies is_white(
            #[trigger] text.drop_last()[i],
        ) by {
            assert(text.drop_last()[i] == text[i]);
        }
        lemma_trimmed_end_is(text.drop_last(), n);
        assert(text.drop_last().take(n) =~= text.take(n));
    } else {
        assert(text.take(n) =~= text);
    }
}

/// `text` without the white space at either end.
pub fn trim<'a>(text: &'a str) -> (rest: &'a str)
    ensures
        rest@ == trimmed(text@),
{
    let rest = trim_start(text);
    let chars = chars_of(rest);
    let mut n: usize = chars.len();
    while n > 0 && is_whitespace(chars[n - 1])
        invariant
            n <= chars.len(),
            forall|i: int| n <= i < chars.len() ==> is_white(#[trigger] chars@[i]),
        decreases n,
    {
        n = n - 1;
    }
    proof {
        lemma_trimmed_end_is(rest@, n as int);
    }
    rest.substring_char(0, n)
}

/// Whether `text` begins and ends with a character that is not white.
pub open spec fn is_trim(text: Seq<char>) -> bool {
    text.len() > 0 && !is_white(text[0]) && !is_white(text.last())
}

/// How many characters of `text` remain when the white space at its end is gone.
proof fn lemma_trimmed_end(text: Seq<char>)
    ensures
        trimmed_end(text).len() <= text.len(),
        trimmed_end(text) == text.take(trimmed_end(text).len() as int),
        forall|i: int| trimmed_end(text).len() <= i < text.len() ==> is_white(#[trigger] text[i]),
        trimmed_end(text).len() > 0 ==> !is_white(text[trimmed_end(text).len() - 1]),
    decreases text.len(),
{
    if text.len() > 0 && is_white(text.last()) {
        lemma_trimmed_end(text.drop_last());
        let n = trimmed_end(text).len() as int;
        assert(text.drop_last().take(n) =~= text.take(n));
        assert forall|i: int| n <= i < text.len() implies is_white(#[trigger] text[i]) by {
            if i < text.len() - 1 {
                assert(text[i] == text.drop_last()[i]);
            }
        }
    } else {
        assert(text.take(text.len() as int) =~= text);
    }
}

/// Trimming white space leaves nothing, and any other text bounded by characters that are not
/// white.
pub(crate) proof fn lemma_trimmed(text: Seq<char>)
    ensures
        is_blank(text) <==> trimmed(text).len() == 0,
        is_blank(text) <==> trimmed_start(text).len() == 0,
        !is_blank(text) ==> is_trim(trimmed(text)),
        !is_blank(text) ==> trimmed_start(text)[0] == trimmed(text)[0],
{
    lemma_leading_white(text);
    let start = leading_white(text) as int;
    let rest = trimmed_start(text);
    lemma_trimmed_end(rest);
    let n = trimmed_end(rest).len() as int;
    if is_blank(text) {
        if start < text.len() {
            assert(is_white(text[start]));
        }
    } else {
        assert(start < text.len());
        assert(rest[0] == text[start]);
        assert(!is_white(text[start]));
        if n == 0 {
            assert(is_white(rest[0]));
        }
        assert(trimmed(text)[0] == rest[0]);
        assert(trimmed(text).last() == rest[n - 1]);
    }
}

/// Tells whether `text` holds white space only.
pub fn blank(text: &str) -> (yes: bool)
    ensures
        yes == is_blank(text@),
{
    let rest = trim_start(text);
    proof {
        lemma_trimmed(text@);
    }
    rest.is_empty()
}

/// How many bytes `text` takes in UTF-8.
pub open spec fn byte_len(text: Seq<char>) -> nat {
    encode_utf8(text).len()
}

/// How many bytes of white space `text` begins with.
pub open spec fn indent(text: Seq<char>) -> nat {
    byte_len(text.take(leading_white(text) as int))
}

/// Whether the first `n` bytes of `text` are whole characters.
pub open spec fn cuts_at(text: Seq<char>, n: nat) -> bool {
    exists|k: int| 0 <= k <= text.len() && #[trigger] byte_len(text.take(k)) == n
}

/// `text` after its first `n` bytes, where these are whole characters.
pub open spec fn after_bytes(text: Seq<char>, n: nat) -> Seq<char> {
    text.skip(choose|k: int| 0 <= k <= text.len() && #[trigger] byte_len(text.take(k)) == n)
}

pub(crate) proof fn lemma_byte_len_concat(a: Seq<char>, b: Seq<char>)
    ensures
        byte_len(a + b) == byte_len(a) + byte_len(b),
    decreases a.len(),
{
    if a.len() == 0 {
        assert(a + b =~= b);
    } else {
        lemma_byte_len_concat(a.drop_first(), b);
        assert((a + b).drop_first() =~= a.drop_first() + b);
    }
}

/// Every character takes at least one byte.
pub(crate) proof fn lemma_byte_len_take(text: Seq<char>, i: int, j: int)
    requires
        0 <= i < j <= text.len(),
    ensures
        byte_len(text.take(i)) < byte_len(text.take(j)) <= byte_len(text),
{
    lemma_byte_len_concat(text.take(i), text.subrange(i, j));
    assert(text.take(i) + text.subrange(i, j) =~= text.take(j));
    lemma_byte_len_concat(text.take(j), text.skip(j));
    assert(text.take(j) + text.skip(j) =~= text);
}

/// How many bytes the character `c` takes in UTF-8.
fn width(c: char) -> (n: usize)
    ensures
        n == byte_len(seq![c]),
        1 <= n <= 4,
{
    proof {
        reveal_with_fuel(encode_utf8, 2);
    }
    if c <= '\u{7f}' {
        1
    } else if c <= '\u{7ff}' {
        2
    } else if c <= '\u{ffff}' {
        3
    } else {
        4
    }
}

/// The text after `k` characters is the text after the bytes that they take.
pub(crate) proof fn lemma_after_bytes(text: Seq<char>, k: int)
    requires
        0 <= k <= text.len(),
    ensures
        cuts_at(text, byte_len(text.take(k))),
        after_bytes(text, byte_len(text.take(k))) == text.skip(k),
{
    let n = byte_len(text.take(k));
    let m = choose|m: int| 0 <= m <= text.len() && #[trigger] byte_len(text.take(m)) == n;
    if m < k {
        lemma_byte_len_take(text, m, k);
    }
    if k < m {
        lemma_byte_len_take(text, k, m);
    }
}

/// How many bytes of white space `text` begins with.
pub fn indent_of(text: &str) -> (n: usize)
    ensures
        n == indent(text@),
{
    let rest = trim_start(text);
    proof {
        lemma_leading_white(text@);
        let k = leading_white(text@) as int;
        lemma_byte_len_concat(text@.take(k), text@.skip(k));
        assert(text@.take(k) + text@.skip(k) =~= text@);
    }
    text.as_bytes().len() - rest.as_bytes().len()
}

/// How many characters make up the first `n` bytes of `text`, where these are whole characters.
fn chars_in_bytes(text: &str, n: usize) -> (found: Option<usize>)
    ensures
        found is Some <==> cuts_at(text@, n as nat),
        found is Some ==> found->0 <= text@.len() && byte_len(text@.take(found->0 as int)) == n,
{
    let chars = chars_of(text);
    let mut k: usize = 0;
    let mut used: usize = 0;
    proof {
        reveal_with_fuel(encode_utf8, 1);
        assert(text@.take(0) =~= Seq::empty());
    }
    while k < chars.len() && used < n
        invariant
            k <= chars.len(),
            chars@ == text@,
            used == byte_len(text@.take(k as int)),
            used <= n,
        decreases chars.len() - k,
    {
        let step: usize = width(chars[k]);
        proof {
            lemma_byte_len_concat(text@.take(k as int), seq![text@[k as int]]);
            assert(text@.take(k as int) + seq![text@[k as int]] =~= text@.take(k + 1));
        }
        if n - used < step {
            proof {
                assert forall|m: int| 0 <= m <= text@.len() implies #[trigger] byte_len(
                    text@.take(m),
                ) != n by {
                    if m < k {
                        lemma_byte_len_take(text@, m, k as int);
                    } else if k + 1 < m {
                        lemma_byte_len_take(text@, k + 1, m);
                    }
                }
            }
            return None;
        }
        used = used + step;
        k = k + 1;
    }
    if used == n {
        Some(k)
    } else {
        proof {
            assert forall|m: int| 0 <= m <= text@.len() implies #[trigger] byte_len(
                text@.take(m),
            ) != n by {
                if m < k {
                    lemma_byte_len_take(text@, m, k as int);
                }
            }
        }
        None
    }
}

/// Tells whether the first `n` bytes of `text` are whole characters.
pub fn cuts(text: &str, n: usize) -> (yes: bool)
    ensures
        yes == cuts_at(text@, n as nat),
{
    chars_in_bytes(text, n).is_some()
}

/// `text` after its first `n` bytes.
pub fn skip_bytes<'a>(text: &'a str, n: usize) -> (rest: &'a str)
    requires
        cuts_at(text@, n as nat),
    ensures
        rest@ == after_bytes(text@, n as nat),
{
    match chars_in_bytes(text, n) {
        Some(k) => {
            proof {
                lemma_after_bytes(text@, k as int);
            }
            text.substring_char(k, text.unicode_len())
        },
        None => text,
    }
}

/// The white space that `text` begins with can be cut off.
pub(crate) proof fn lemma_indent_cuts(text: Seq<char>)
    ensures
        cuts_at(text, indent(text)),
        after_bytes(text, indent(text)) == trimmed_start(text),
{
    lemma_leading_white(text);
    lemma_after_bytes(text, leading_white(text) as int);
}

/// Whether `pattern` stands in `text` at index `i`.
pub open spec fn occurs_at(text: Seq<char>, pattern: Seq<char>, i: int) -> bool {
    0 <= i && i + pattern.len() <= text.len() && text.subrange(i, i + pattern.len()) == pattern
}

/// Whether `pattern` stands in `text` anywhere.
pub open spec fn occurs(text: Seq<char>, pattern: Seq<char>) -> bool {
    exists|i: int| occurs_at(text, pattern, i)
}

/// Whether `pattern` stands in `text` at index `i` and nowhere before.
pub open spec fn is_first_at(text: Seq<char>, pattern: Seq<char>, i: int) -> bool {
    occurs_at(text, pattern, i) && forall|j: int| 0 <= j < i ==> !occurs_at(text, pattern, j)
}

/// Where `pattern` stands in `text` first.
pub open spec fn first_at(text: Seq<char>, pattern: Seq<char>) -> int {
    choose|i: int| is_first_at(text, pattern, i)
}

/// Whether `text` begins with `prefix`.
pub open spec fn begins_with(text: Seq<char>, prefix: Seq<char>) -> bool {
    occurs_at(text, prefix, 0)
}

/// Whether `text` ends with `suffix`.
pub open spec fn ends_with(text: Seq<char>, suffix: Seq<char>) -> bool {
    occurs_at(text, suffix, text.len() - suffix.len())
}

pub(crate) proof fn lemma_first_at(text: Seq<char>, pattern: Seq<char>, i: int)
    requires
        is_first_at(text, pattern, i),
    ensures
        first_at(text, pattern) == i,
{
    let j = first_at(text, pattern);
    assert(is_first_at(text, pattern, j));
    if j < i {
        assert(!occurs_at(text, pattern, j));
    }
    if i < j {
        assert(!occurs_at(text, pattern, i));
    }
}

/// Tells whether `pattern` stands in `text` at index `i`.
fn stands_at(text: &Vec<char>, pattern: &Vec<char>, i: usize) -> (yes: bool)
    ensures
        yes == occurs_at(text@, pattern@, i as int),
{
    if i > text.len() || pattern.len() > text.len() - i {
        return false;
    }
    let mut k: usize = 0;
    while k < pattern.len()
        invariant
            k <= pattern.len(),
            i + pattern.len() <= text.len(),
            forall|j: int| 0 <= j < k ==> text@[i + j] == #[trigger] pattern@[j],
        decreases pattern.len() - k,
    {
        if text[i + k] != pattern[k] {
            proof {
                assert(text@.subrange(i as int, i + pattern@.len())[k as int]
                    != pattern@[k as int]);
            }
            return false;
        }
        k = k + 1;
    }
    proof {
        assert(text@.subrange(i as int, i + pattern@.len()) =~= pattern@);
    }
    true
}

/// Where `pattern` stands in `text` first, counted in characters.
pub fn find(text: &str, pattern: &str) -> (at: Option<usize>)
    ensures
        match at {
            Some(i) => is_first_at(text@, pattern@, i as int) && first_at(text@, pattern@) == i,
            None => !occurs(text@, pattern@),
        },
{
    let chars = chars_of(text);
    let wanted = chars_of(pattern);
    let mut i: usize = 0;
    while i <= chars.len()
        invariant
            chars@ == text@,
            wanted@ == pattern@,
            forall|j: int| 0 <= j < i ==> !occurs_at(text@, pattern@, j),
        decreases chars.len() + 1 - i,
    {
        if stands_at(&chars, &wanted, i) {
            proof {
                lemma_first_at(text@, pattern@, i as int);
            }
            return Some(i);
        }
        if i == chars.len() {
            return None;
        }
        i = i + 1;
    }
    None
}

/// Tells whether `pattern` stands in `text` anywhere.
pub fn contains(text: &str, pattern: &str) -> (yes: bool)
    ensures
        yes == occurs(text@, pattern@),
{
    find(text, pattern).is_some()
}

/// Tells whether `text` begins with `prefix`.
pub fn starts_with(text: &str, prefix: &str) -> (yes: bool)
    ensures
        yes == begins_with(text@, prefix@),
{
    stands_at(&chars_of(text), &chars_of(prefix), 0)
}

/// `text` without the `suffix` that it ends with.
pub fn strip_suffix<'a>(text: &'a str, suffix: &str) -> (rest: Option<&'a str>)
    ensures
        match rest {
            Some(start) => ends_with(text@, suffix@) && start@ == text@.take(
                text@.len() - suffix@.len(),
            ),
            None => !ends_with(text@, suffix@),
        },
{
    let chars = chars_of(text);
    let wanted = chars_of(suffix);
    if wanted.len() <= chars.len() && stands_at(&chars, &wanted, chars.len() - wanted.len()) {
        Some(text.substring_char(0, chars.len() - wanted.len()))
    } else {
        None
    }
}

/// Tells whether the two texts are the same.
pub fn same(a: &str, b: &str) -> (yes: bool)
    ensures
        yes == (a@ == b@),
{
    a.to_owned() == b.to_owned()
}

/// The characters of the text, where there is one.
pub open spec fn view_of(text: Option<String>) -> Option<Seq<char>> {
    match text {
        Some(text) => Some(text@),
        None => None,
    }
}

/// The characters of each text.
pub open spec fn views(texts: Seq<&str>) -> Seq<Seq<char>> {
    texts.map_values(|text: &str| text@)
}

/// How many characters stand before the first line feed, or all of them where there is none.
pub open spec fn line_end(text: Seq<char>) -> nat
    decreases text.len(),
{
    if text.len() == 0 || text[0] == '\n' {
        0
    } else {
        1 + line_end(text.drop_first())
    }
}

/// `line` without the carriage return that it ends with.
pub open spec fn without_return(line: Seq<char>) -> Seq<char> {
    if line.len() > 0 && line.last() == '\r' {
        line.drop_last()
    } else {
        line
    }
}

/// The lines of `text`, each without the line feed, or carriage return and line feed, that ends
/// it. The last line need not have one.
pub open spec fn lines_of(text: Seq<char>) -> Seq<Seq<char>>
    decreases text.len(),
{
    let n = line_end(text) as int;
    if text.len() == 0 {
        seq![]
    } else if n < text.len() {
        seq![without_return(text.take(n))] + lines_of(text.skip(n + 1))
    } else {
        seq![text]
    }
}

pub(crate) proof fn lemma_line_end_is(text: Seq<char>, n: int)
    requires
        0 <= n <= text.len(),
        forall|i: int| 0 <= i < n ==> #[trigger] text[i] != '\n',
        n < text.len() ==> text[n] == '\n',
    ensures
        line_end(text) == n,
    decreases text.len(),
{
    if n > 0 {
        assert(text[0] != '\n');
        assert forall|i: int| 0 <= i < n - 1 implies #[trigger] text.drop_first()[i] != '\n' by {
            assert(text.drop_first()[i] == text[i + 1]);
        }
        lemma_line_end_is(text.drop_first(), n - 1);
    }
}

/// The lines of `text`, each without what ends it.
pub fn lines<'a>(text: &'a str) -> (found: Vec<&'a str>)
    ensures
        views(found@) == lines_of(text@),
{
    let chars = chars_of(text);
    let mut found: Vec<&'a str> = Vec::new();
    let mut start: usize = 0;
    proof {
        assert(text@.skip(0) =~= text@);
        assert(views(found@) + lines_of(text@) =~= lines_of(text@));
    }
    while start < chars.len()
        invariant
            start <= chars.len(),
            chars@ == text@,
            views(found@) + lines_of(text@.skip(start as int)) == lines_of(text@),
        decreases chars.len() - start,
    {
        let mut end: usize = start;
        while end < chars.len() && chars[end] != '\n'
            invariant
                start <= end <= chars.len(),
                forall|i: int| start <= i < end ==> #[trigger] chars@[i] != '\n',
            decreases chars.len() - end,
        {
            end = end + 1;
        }
        let ghost rest = text@.skip(start as int);
        let ghost before = found@;
        proof {
            assert forall|i: int| 0 <= i < end - start implies #[trigger] rest[i] != '\n' by {
                assert(rest[i] == chars@[start + i]);
            }
            lemma_line_end_is(rest, end - start);
        }
        if end < chars.len() {
            let mut stop: usize = end;
            if end > start && chars[end - 1] == '\r' {
                stop = end - 1;
            }
            let line = text.substring_char(start, stop);
            found.push(line);
            proof {
                assert(line@ =~= without_return(rest.take(end - start)));
                assert(rest.skip(end - start + 1) =~= text@.skip(end + 1));
                assert(views(found@) =~= views(before) + seq![line@]);
                assert(views(found@) + lines_of(text@.skip(end + 1)) =~= views(before) + lines_of(
                    rest,
                ));
            }
            start = end + 1;
        } else {
            let line = text.substring_char(start, end);
            found.push(line);
            proof {
                assert(line@ =~= rest);
                assert(views(found@) =~= views(before) + seq![line@]);
                assert(text@.skip(end as int).len() == 0);
                assert(views(found@) + lines_of(text@.skip(end as int)) =~= views(before)
                    + lines_of(rest));
            }
            start = end;
        }
    }
    proof {
        assert(text@.skip(start as int).len() == 0);
        assert(views(found@) + lines_of(text@.skip(start as int)) =~= views(found@));
    }
    found
}

/// The texts one after the other, with `separator` between each and the next.
pub open spec fn joined(texts: Seq<Seq<char>>, separator: Seq<char>) -> Seq<char>
    decreases texts.len(),
{
    if texts.len() == 0 {
        seq![]
    } else if texts.len() == 1 {
        texts[0]
    } else {
        joined(texts.drop_last(), separator) + separator + texts.last()
    }
}

/// The texts one after the other, with `separator` between each and the next.
pub fn join(texts: &Vec<&str>, separator: &str) -> (whole: String)
    ensures
        whole@ == joined(views(texts@), separator@),
{
    let mut whole: String = String::new();
    let mut i: usize = 0;
    while i < texts.len()
        invariant
            i <= texts.len(),
            whole@ == joined(views(texts@).take(i as int), separator@),
        decreases texts.len() - i,
    {
        let ghost next = views(texts@).take(i + 1);
        proof {
            assert(next.drop_last() =~= views(texts@).take(i as int));
        }
        if i > 0 {
            whole.append(separator);
        }
        whole.append(texts[i]);
        proof {
            assert(whole@ =~= joined(next, separator@));
        }
        i = i + 1;
    }
    proof {
        assert(views(texts@).take(i as int) =~= views(texts@));
    }
    whole
}

/// `text` without the line feeds that it ends with.
pub open spec fn without_newlines(text: Seq<char>) -> Seq<char>
    decreases text.len(),
{
    if text.len() > 0 && text.last() == '\n' {
        without_newlines(text.drop_last())
    } else {
        text
    }
}

/// `text` without the line feeds that it ends with.
pub fn trim_newlines<'a>(text: &'a str) -> (rest: &'a str)
    ensures
        rest@ == without_newlines(text@),
{
    let chars = chars_of(text);
    let mut n: usize = chars.len();
    proof {
        assert(text@.take(n as int) =~= text@);
    }
    while n > 0 && chars[n - 1] == '\n'
        invariant
            n <= chars.len(),
            chars@ == text@,
            without_newlines(text@.take(n as int)) == without_newlines(text@),
        decreases n,
    {
        proof {
            assert(text@.take(n as int).drop_last() =~= text@.take(n - 1));
        }
        n = n - 1;
    }
    text.substring_char(0, n)
}

/// The decimal digits of `n`, most significant first.
pub open spec fn decimal(n: nat) -> Seq<char>
    decreases n,
{
    let digit = (('0' as nat) + n % 10) as char;
    if n < 10 {
        seq![digit]
    } else {
        decimal(n / 10).push(digit)
    }
}

/// The digit that stands for `n`.
fn digit(n: u64) -> (text: &'static str)
    requires
        n < 10,
    ensures
        text@ == seq![(('0' as nat) + n) as char],
{
    proof {
        reveal_strlit("0");
        reveal_strlit("1");
        reveal_strlit("2");
        reveal_strlit("3");
        reveal_strlit("4");
        reveal_strlit("5");
        reveal_strlit("6");
        reveal_strlit("7");
        reveal_strlit("8");
        reveal_strlit("9");
    }
    if n == 0 {
        "0"
    } else if n == 1 {
        "1"
    } else if n == 2 {
        "2"
    } else if n == 3 {
        "3"
    } else if n == 4 {
        "4"
    } else if n == 5 {
        "5"
    } else if n == 6 {
        "6"
    } else if n == 7 {
        "7"
    } else if n == 8 {
        "8"
    } else {
        "9"
    }
}

/// `n` written in decimal.
pub fn decimal_of(n: u64) -> (text: String)
    ensures
        text@ == decimal(n as nat),
    decreases n,
{
    let last = digit(n % 10);
    let mut text: String = String::new();
    if n >= 10 {
        text = decimal_of(n / 10);
    }
    text.append(last);
    proof {
        assert(text@ =~= decimal(n as nat));
    }
    text
}

/// Whether `a` comes before `b` in the order of code points, as in a dictionary.
pub open spec fn before(a: Seq<char>, b: Seq<char>) -> bool
    decreases a.len(),
{
    if b.len() == 0 {
        false
    } else if a.len() == 0 {
        true
    } else {
        a[0] < b[0] || (a[0] == b[0] && before(a.drop_first(), b.drop_first()))
    }
}

pub(crate) proof fn lemma_before_from(a: Seq<char>, b: Seq<char>, n: int)
    requires
        0 <= n <= a.len(),
        n <= b.len(),
        a.take(n) == b.take(n),
    ensures
        before(a, b) == before(a.skip(n), b.skip(n)),
    decreases n,
{
    if n == 0 {
        assert(a.skip(0) =~= a);
        assert(b.skip(0) =~= b);
    } else {
        assert(a[0] == a.take(n)[0]);
        assert(b[0] == b.take(n)[0]);
        assert(a.drop_first().take(n - 1) =~= a.take(n).drop_first());
        assert(b.drop_first().take(n - 1) =~= b.take(n).drop_first());
        lemma_before_from(a.drop_first(), b.drop_first(), n - 1);
        assert(a.drop_first().skip(n - 1) =~= a.skip(n));
        assert(b.drop_first().skip(n - 1) =~= b.skip(n));
    }
}

/// Tells whether `a` comes before `b` in the order of code points.
pub fn precedes(a: &str, b: &str) -> (yes: bool)
    ensures
        yes == before(a@, b@),
{
    let left = chars_of(a);
    let right = chars_of(b);
    let mut i: usize = 0;
    while i < left.len() && i < right.len() && left[i] == right[i]
        invariant
            i <= left.len(),
            i <= right.len(),
            left@.take(i as int) == right@.take(i as int),
        decreases left.len() - i,
    {
        proof {
            assert(left@.take(i + 1) =~= left@.take(i as int).push(left@[i as int]));
            assert(right@.take(i + 1) =~= right@.take(i as int).push(right@[i as int]));
        }
        i = i + 1;
    }
    proof {
        lemma_before_from(a@, b@, i as int);
    }
    if i == right.len() {
        false
    } else if i == left.len() {
        true
    } else {
        left[i] < right[i]
    }
}

/// No text comes before itself, and of two texts one comes before the other.
pub(crate) proof fn lemma_before_total(a: Seq<char>, b: Seq<char>)
    ensures
        !(before(a, b) && before(b, a)),
        a == b ==> !before(a, b),
        a != b ==> before(a, b) || before(b, a),
    decreases a.len(),
{
    if a.len() > 0 && b.len() > 0 {
        lemma_before_total(a.drop_first(), b.drop_first());
        if a[0] == b[0] && a.drop_first() == b.drop_first() {
            assert(a =~= seq![a[0]] + a.drop_first());
            assert(b =~= seq![b[0]] + b.drop_first());
        }
    } else if a.len() == 0 && b.len() == 0 {
        assert(a =~= b);
    }
}

/// The order of texts is transitive.
pub(crate) proof fn lemma_before_transitive(a: Seq<char>, b: Seq<char>, c: Seq<char>)
    requires
        before(a, b),
        before(b, c),
    ensures
        before(a, c),
    decreases a.len(),
{
    if a.len() > 0 && a[0] == b[0] && b[0] == c[0] {
        lemma_before_transitive(a.drop_first(), b.drop_first(), c.drop_first());
    }
}

/// The first text stands first in the joined texts.
pub(crate) proof fn lemma_joined_first(texts: Seq<Seq<char>>, separator: Seq<char>)
    requires
        texts.len() > 1,
    ensures
        joined(texts, separator) == texts[0] + separator + joined(texts.drop_first(), separator),
    decreases texts.len(),
{
    reveal_with_fuel(joined, 2);
    if texts.len() == 2 {
        assert(texts.drop_last()[0] == texts[0]);
        assert(texts.drop_first()[0] == texts.last());
    } else {
        let rest = texts.drop_first();
        lemma_joined_first(texts.drop_last(), separator);
        assert(texts.drop_last().drop_first() =~= rest.drop_last());
        assert(texts.drop_last()[0] == texts[0]);
        assert(rest.last() == texts.last());
        assert(joined(texts, separator) =~= texts[0] + separator + (joined(
            rest.drop_last(),
            separator,
        ) + separator + rest.last()));
    }
}

/// Texts without line breaks, joined by line feeds, are the lines of the whole, unless the last one
/// is empty.
pub(crate) proof fn lemma_lines_of_joined(texts: Seq<Seq<char>>)
    requires
        forall|i: int, j: int|
            0 <= i < texts.len() && 0 <= j < texts[i].len() ==> #[trigger] texts[i][j] != '\n'
                && texts[i][j] != '\r',
        texts.len() > 0 ==> texts.last().len() > 0,
    ensures
        lines_of(joined(texts, seq!['\n'])) == texts,
    decreases texts.len(),
{
    let whole = joined(texts, seq!['\n']);
    if texts.len() == 0 {
    } else if texts.len() == 1 {
        lemma_line_end_is(whole, whole.len() as int);
        assert(texts =~= seq![texts[0]]);
    } else {
        let rest = texts.drop_first();
        lemma_joined_first(texts, seq!['\n']);
        let n = texts[0].len() as int;
        assert forall|i: int| 0 <= i < n implies #[trigger] whole[i] != '\n' by {
            assert(whole[i] == texts[0][i]);
        }
        lemma_line_end_is(whole, n);
        assert(whole.take(n) =~= texts[0]);
        if n > 0 {
            assert(texts[0][n - 1] != '\r');
        }
        assert(whole.skip(n + 1) =~= joined(rest, seq!['\n']));
        assert forall|i: int, j: int| 0 <= i < rest.len() && 0 <= j < rest[i].len() implies
            #[trigger] rest[i][j] != '\n' && rest[i][j] != '\r' by {
            assert(rest[i][j] == texts[i + 1][j]);
        }
        lemma_lines_of_joined(rest);
        assert(seq![texts[0]] + rest =~= texts);
    }
}

/// `text` as `{:?}` writes it: between quotation marks, with escapes.
pub uninterp spec fn quoted(text: Seq<char>) -> Seq<char>;

/// Writes `text` with the `{:?}` of std's `format!`. What that gives for a text is named `quoted`:
/// it depends on the text alone.
#[verifier::external_body]
pub(crate) fn quote(text: &str) -> (written: String)
    ensures
        written@ == quoted(text@),
{
    format!("{:?}", text)
}

} // verus!
