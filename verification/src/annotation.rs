//! Annotations (`@name: value`) in the metadata section of a doc comment.

use vstd::prelude::*;

use crate::block::{
    base_of, block_cuts_cleanly, block_indent, cuts_cleanly, folded_block, has_content,
    lemma_first_content, literal_block, parse_folded_block_scalar, parse_literal_block_scalar,
};
use crate::text::{
    after_bytes, begins_with, blank, contains, find, first_at, indent, indent_of, is_blank,
    is_first_at, is_white, join, joined, lemma_first_at, lemma_leading_white,
    lemma_leading_white_is, lemma_lines_of_joined, lemma_trimmed, lines, lines_of, occurs,
    occurs_at, skip_bytes, starts_with, trim, trim_start, trimmed, trimmed_start, view_of, views,
};

verus! {

/// What introduces the annotation `name`: `@name:`.
pub open spec fn marker(name: Seq<char>) -> Seq<char> {
    seq!['@'] + name + seq![':']
}

/// Whether `line` ends the block of an annotation indented by `level`: another annotation that is
/// indented no further, or anything that is indented less.
pub open spec fn ends_block(line: Seq<char>, level: nat) -> bool {
    ||| begins_with(trimmed(line), seq!['@']) && occurs(trimmed(line), seq![':']) && indent(line)
        <= level
    ||| !is_blank(line) && indent(line) < level
}

/// How many lines, from the first on, come before one that ends the block.
pub open spec fn block_len(lines: Seq<Seq<char>>, level: nat) -> nat
    decreases lines.len(),
{
    if lines.len() == 0 || ends_block(lines[0], level) {
        0
    } else {
        1 + block_len(lines.drop_first(), level)
    }
}

/// The lines that belong to the block of an annotation indented by `level`, of the lines after it.
pub open spec fn block_lines(lines: Seq<Seq<char>>, level: nat) -> Seq<Seq<char>> {
    lines.take(block_len(lines, level) as int)
}

/// The index of the first line that holds `pattern`, or the number of lines where none does.
pub open spec fn line_with(lines: Seq<Seq<char>>, pattern: Seq<char>) -> nat
    decreases lines.len(),
{
    if lines.len() == 0 || occurs(lines[0], pattern) {
        0
    } else {
        1 + line_with(lines.drop_first(), pattern)
    }
}

/// The text behind the first `pattern` in `line`, without the white space before it.
pub open spec fn text_behind(line: Seq<char>, pattern: Seq<char>) -> Seq<char> {
    trimmed_start(line.skip(first_at(line, pattern) + pattern.len()))
}

/// What makes up an annotation: the text behind its marker, and the lines of its block.
pub open spec fn located(lines: Seq<Seq<char>>, name: Seq<char>) -> Option<
    (Seq<char>, Seq<Seq<char>>),
> {
    let n = line_with(lines, marker(name)) as int;
    if n < lines.len() {
        let block = block_lines(lines.skip(n + 1), indent(lines[n]));
        Some((text_behind(lines[n], marker(name)), block))
    } else {
        None
    }
}

/// A line of a block that is neither literal nor folded: without the indentation of the block, or
/// trimmed where it is indented less.
pub open spec fn plain_line(line: Seq<char>, base: nat) -> Seq<char> {
    if indent(line) >= base {
        after_bytes(line, base)
    } else {
        trimmed(line)
    }
}

/// The lines that are not blank, without the indentation of the block.
pub open spec fn plain_lines(lines: Seq<Seq<char>>, base: nat) -> Seq<Seq<char>>
    decreases lines.len(),
{
    if lines.len() == 0 {
        seq![]
    } else if is_blank(lines.last()) {
        plain_lines(lines.drop_last(), base)
    } else {
        plain_lines(lines.drop_last(), base).push(plain_line(lines.last(), base))
    }
}

/// `text`, unless it is blank.
pub open spec fn unless_blank(text: Seq<char>) -> Option<Seq<char>> {
    if is_blank(text) {
        None
    } else {
        Some(text)
    }
}

/// What an annotation says that has the text `behind` behind its marker and `block` below it: a
/// literal block behind `|`, a folded one behind `>`, and otherwise the text and the lines of the
/// block that are not blank, trimmed. A blank annotation says nothing.
pub open spec fn value(behind: Seq<char>, block: Seq<Seq<char>>) -> Option<Seq<char>> {
    if begins_with(behind, seq!['|']) {
        unless_blank(literal_block(block))
    } else if begins_with(behind, seq!['>']) {
        unless_blank(folded_block(block))
    } else {
        let first = if behind.len() > 0 {
            seq![behind]
        } else {
            seq![]
        };
        unless_blank(trimmed(joined(first + plain_lines(block, block_indent(block)), seq!['\n'])))
    }
}

/// What the annotation `name` says in these lines.
pub open spec fn annotation_in(lines: Seq<Seq<char>>, name: Seq<char>) -> Option<Seq<char>> {
    match located(lines, name) {
        Some((behind, block)) => value(behind, block),
        None => None,
    }
}

/// What the annotation `name` says in `metadata`.
pub open spec fn annotation(metadata: Seq<char>, name: Seq<char>) -> Option<Seq<char>> {
    annotation_in(lines_of(metadata), name)
}

/// Whether the indentation of the block below the annotation `name` can be cut off.
pub open spec fn annotation_cuts_cleanly(metadata: Seq<char>, name: Seq<char>) -> bool {
    match located(lines_of(metadata), name) {
        Some((_, block)) => cuts_cleanly(block),
        None => true,
    }
}

proof fn lemma_block_len(lines: Seq<Seq<char>>, level: nat)
    ensures
        block_len(lines, level) <= lines.len(),
        forall|i: int| 0 <= i < block_len(lines, level) ==> !ends_block(#[trigger] lines[i], level),
        block_len(lines, level) < lines.len() ==> ends_block(
            lines[block_len(lines, level) as int],
            level,
        ),
    decreases lines.len(),
{
    if lines.len() > 0 && !ends_block(lines[0], level) {
        let rest = lines.drop_first();
        lemma_block_len(rest, level);
        let n = block_len(lines, level) as int;
        assert forall|i: int| 0 <= i < n implies !ends_block(#[trigger] lines[i], level) by {
            if i > 0 {
                assert(lines[i] == rest[i - 1]);
            }
        }
        if n < lines.len() {
            assert(lines[n] == rest[n - 1]);
        }
    }
}

pub(crate) proof fn lemma_block_len_is(lines: Seq<Seq<char>>, level: nat, n: int)
    requires
        0 <= n <= lines.len(),
        forall|i: int| 0 <= i < n ==> !ends_block(#[trigger] lines[i], level),
        n < lines.len() ==> ends_block(lines[n], level),
    ensures
        block_len(lines, level) == n,
{
    lemma_block_len(lines, level);
    let m = block_len(lines, level) as int;
    if m < n {
        assert(!ends_block(lines[m], level));
    }
    if n < m {
        assert(!ends_block(lines[n], level));
    }
}

/// Tells whether `line` ends the block of an annotation indented by `level`.
fn ends(line: &str, level: usize) -> (yes: bool)
    ensures
        yes == ends_block(line@, level as nat),
{
    proof {
        reveal_strlit("@");
        reveal_strlit(":");
        assert("@"@ =~= seq!['@']);
        assert(":"@ =~= seq![':']);
    }
    let trimmed_line = trim(line);
    let line_indent: usize = indent_of(line);
    if starts_with(trimmed_line, "@") && contains(trimmed_line, ":") && line_indent <= level {
        return true;
    }
    !blank(line) && line_indent < level
}

/// Collects the lines that belong to the block of the annotation in `annotation_line`, from the
/// line `start_idx` on: up to the next annotation that is indented no further, or the next line
/// that is indented less.
pub fn collect_annotation_block_lines<'a>(
    all_lines: &[&'a str],
    start_idx: usize,
    annotation_line: &str,
) -> (block: Vec<&'a str>)
    ensures
        views(block@) == (if start_idx <= all_lines@.len() {
            block_lines(views(all_lines@).skip(start_idx as int), indent(annotation_line@))
        } else {
            seq![]
        }),
{
    let level: usize = indent_of(annotation_line);
    let mut block: Vec<&'a str> = Vec::new();
    if start_idx > all_lines.len() {
        proof {
            assert(views(block@) =~= seq![]);
        }
        return block;
    }
    let ghost rest = views(all_lines@).skip(start_idx as int);
    let mut i: usize = start_idx;
    while i < all_lines.len() && !ends(all_lines[i], level)
        invariant
            start_idx <= i <= all_lines.len(),
            rest == views(all_lines@).skip(start_idx as int),
            views(block@) == rest.take(i - start_idx),
            forall|j: int| 0 <= j < i - start_idx ==> !ends_block(#[trigger] rest[j], level as nat),
        decreases all_lines.len() - i,
    {
        let ghost earlier = block@;
        block.push(all_lines[i]);
        proof {
            assert(views(earlier).len() == i - start_idx);
            assert(rest[i - start_idx] == all_lines@[i as int]@);
            assert(views(block@) =~= views(earlier).push(rest[i - start_idx]));
            assert(views(block@) =~= rest.take(i + 1 - start_idx));
        }
        i = i + 1;
    }
    proof {
        if i < all_lines.len() {
            assert(rest[i - start_idx] == all_lines@[i as int]@);
        }
        lemma_block_len_is(rest, level as nat, i - start_idx);
    }
    block
}

pub(crate) proof fn lemma_line_with_is(lines: Seq<Seq<char>>, pattern: Seq<char>, n: int)
    requires
        0 <= n <= lines.len(),
        forall|i: int| 0 <= i < n ==> !occurs(#[trigger] lines[i], pattern),
        n < lines.len() ==> occurs(lines[n], pattern),
    ensures
        line_with(lines, pattern) == n,
    decreases lines.len(),
{
    if n > 0 {
        assert(!occurs(lines[0], pattern));
        let rest = lines.drop_first();
        assert forall|i: int| 0 <= i < n - 1 implies !occurs(#[trigger] rest[i], pattern) by {
            assert(rest[i] == lines[i + 1]);
        }
        if n < lines.len() {
            assert(rest[n - 1] == lines[n]);
        }
        lemma_line_with_is(rest, pattern, n - 1);
    }
}

/// The indentation of the annotation `name`, the text behind its marker, and the lines of its
/// block.
fn locate<'a>(metadata: &'a str, name: &str) -> (found: Option<(usize, &'a str, Vec<&'a str>)>)
    ensures
        match found {
            Some((level, behind, block)) => {
                let all = lines_of(metadata@);
                &&& level == indent(all[line_with(all, marker(name@)) as int])
                &&& located(all, name@) == Some((behind@, views(block@)))
            },
            None => located(lines_of(metadata@), name@) is None,
        },
{
    let mut pattern: String = "@".to_owned();
    pattern.append(name);
    pattern.append(":");
    proof {
        reveal_strlit("@");
        reveal_strlit(":");
        assert(pattern@ =~= marker(name@));
    }
    let all_lines = lines(metadata);
    let ghost all = lines_of(metadata@);
    let mut i: usize = 0;
    while i < all_lines.len()
        invariant
            i <= all_lines.len(),
            all == views(all_lines@),
            pattern@ == marker(name@),
            all == lines_of(metadata@),
            forall|j: int| 0 <= j < i ==> !occurs(#[trigger] all[j], pattern@),
        decreases all_lines.len() - i,
    {
        let line = all_lines[i];
        proof {
            assert(all[i as int] == line@);
        }
        if let Some(at) = find(line, pattern.as_str()) {
            let total: usize = line.unicode_len();
            let pattern_len: usize = pattern.as_str().unicode_len();
            let behind = trim_start(line.substring_char(at + pattern_len, total));
            let block = collect_annotation_block_lines(all_lines.as_slice(), i + 1, line);
            proof {
                lemma_line_with_is(all, pattern@, i as int);
                assert(line@.subrange(at + pattern_len, total as int) =~= line@.skip(
                    at + pattern_len,
                ));
            }
            return Some((indent_of(line), behind, block));
        }
        i = i + 1;
    }
    proof {
        lemma_line_with_is(all, pattern@, i as int);
    }
    None
}

/// Tells whether the indentation of the block below the annotation `name` can be cut off.
pub fn annotation_cuts(metadata_section: &str, annotation_name: &str) -> (yes: bool)
    ensures
        yes == annotation_cuts_cleanly(metadata_section@, annotation_name@),
{
    match locate(metadata_section, annotation_name) {
        Some((_, _, block)) => block_cuts_cleanly(block.as_slice()),
        None => true,
    }
}

/// What an annotation says that is neither literal nor folded.
fn plain_value(behind: &str, block: &Vec<&str>) -> (said: Option<String>)
    requires
        cuts_cleanly(views(block@)),
    ensures
        view_of(said) == unless_blank(
            trimmed(
                joined(
                    (if behind@.len() > 0 {
                        seq![behind@]
                    } else {
                        seq![]
                    }) + plain_lines(views(block@), block_indent(views(block@))),
                    seq!['\n'],
                ),
            ),
        ),
{
    let ghost all = views(block@);
    let ghost level = block_indent(all);
    let ghost first = if behind@.len() > 0 {
        seq![behind@]
    } else {
        seq![]
    };
    let mut content: Vec<&str> = Vec::new();
    if !behind.is_empty() {
        content.push(behind);
    }
    proof {
        assert(all.take(0).len() == 0);
        assert(views(content@) =~= first + plain_lines(all.take(0), level));
    }
    let base: usize = match base_of(block.as_slice()) {
        Some(base) => base,
        None => 0,
    };
    let mut i: usize = 0;
    while i < block.len()
        invariant
            i <= block.len(),
            all == views(block@),
            level == block_indent(all),
            has_content(all) ==> base == level,
            cuts_cleanly(all),
            views(content@) == first + plain_lines(all.take(i as int), level),
        decreases block.len() - i,
    {
        let line = block[i];
        let ghost earlier = content@;
        proof {
            assert(all[i as int] == line@);
            assert(all.take(i + 1).drop_last() =~= all.take(i as int));
            lemma_first_content(all);
        }
        if !blank(line) {
            if indent_of(line) >= base {
                content.push(skip_bytes(line, base));
            } else {
                content.push(trim(line));
            }
            proof {
                assert(views(content@) =~= views(earlier).push(plain_line(line@, level)));
                assert(views(content@) =~= first + plain_lines(all.take(i + 1), level));
            }
        }
        i = i + 1;
    }
    proof {
        assert(all.take(i as int) =~= all);
        reveal_strlit("\n");
        assert("\n"@ =~= seq!['\n']);
    }
    let whole = join(&content, "\n");
    let cleaned = trim(whole.as_str());
    if blank(cleaned) {
        None
    } else {
        Some(cleaned.to_owned())
    }
}

/// Reads what the annotation `annotation_name` says in `metadata_section`.
pub fn extract_annotation(metadata_section: &str, annotation_name: &str) -> (said: Option<String>)
    requires
        annotation_cuts_cleanly(metadata_section@, annotation_name@),
    ensures
        view_of(said) == annotation(metadata_section@, annotation_name@),
{
    proof {
        reveal_strlit("|");
        reveal_strlit(">");
        assert("|"@ =~= seq!['|']);
        assert(">"@ =~= seq!['>']);
    }
    let (level, behind, block) = match locate(metadata_section, annotation_name) {
        Some(found) => found,
        None => {
            return None;
        },
    };
    if starts_with(behind, "|") {
        let text = parse_literal_block_scalar(block.as_slice(), level);
        if blank(text.as_str()) {
            None
        } else {
            Some(text)
        }
    } else if starts_with(behind, ">") {
        let text = parse_folded_block_scalar(block.as_slice(), level);
        if blank(text.as_str()) {
            None
        } else {
            Some(text)
        }
    } else {
        plain_value(behind, &block)
    }
}

/// An annotation that says something says something that is not blank.
pub proof fn law_annotation_is_not_blank(metadata: Seq<char>, name: Seq<char>)
    ensures
        annotation(metadata, name) matches Some(said) ==> !is_blank(said),
{
}

/// The block of an annotation goes up to the next line that ends it: none of its lines does, and
/// the line after it, if there is one, does.
pub proof fn law_block_stops_at_next_annotation(lines: Seq<Seq<char>>, level: nat)
    ensures
        forall|i: int|
            0 <= i < block_lines(lines, level).len() ==> !ends_block(
                #[trigger] block_lines(lines, level)[i],
                level,
            ),
        block_lines(lines, level).len() <= lines.len(),
        block_lines(lines, level) == lines.take(block_lines(lines, level).len() as int),
        block_lines(lines, level).len() < lines.len() ==> ends_block(
            lines[block_lines(lines, level).len() as int],
            level,
        ),
{
    lemma_block_len(lines, level);
}

/// What an annotation says depends on its own lines alone: not on lines before it that lack its
/// marker, nor on what comes from the line on that ends its block.
pub proof fn law_annotation_is_local(
    earlier: Seq<Seq<char>>,
    own: Seq<Seq<char>>,
    later: Seq<Seq<char>>,
    name: Seq<char>,
)
    requires
        own.len() > 0,
        occurs(own[0], marker(name)),
        forall|i: int| 0 <= i < earlier.len() ==> !occurs(#[trigger] earlier[i], marker(name)),
        forall|i: int| 1 <= i < own.len() ==> !ends_block(#[trigger] own[i], indent(own[0])),
        later.len() > 0 ==> ends_block(later[0], indent(own[0])),
    ensures
        annotation_in(earlier + own + later, name) == annotation_in(own, name),
{
    let all = earlier + own + later;
    let n = earlier.len() as int;
    let level = indent(own[0]);
    assert forall|i: int| 0 <= i < n implies !occurs(#[trigger] all[i], marker(name)) by {
        assert(all[i] == earlier[i]);
    }
    assert(all[n] == own[0]);
    lemma_line_with_is(all, marker(name), n);
    lemma_line_with_is(own, marker(name), 0);
    let rest = all.skip(n + 1);
    let count = own.len() - 1;
    assert forall|i: int| 0 <= i < count implies !ends_block(#[trigger] rest[i], level) by {
        assert(rest[i] == own[i + 1]);
    }
    if count < rest.len() {
        assert(rest[count] == later[0]);
    }
    lemma_block_len_is(rest, level, count);
    assert forall|i: int| 0 <= i < count implies !ends_block(#[trigger] own.skip(1)[i], level) by {
        assert(own.skip(1)[i] == own[i + 1]);
    }
    lemma_block_len_is(own.skip(1), level, count);
    assert(rest.take(count) =~= own.skip(1).take(count));
}

/// What annotations say in a text is what they say in its lines.
pub proof fn law_metadata_is_its_lines(lines: Seq<Seq<char>>, name: Seq<char>)
    requires
        forall|i: int, j: int|
            0 <= i < lines.len() && 0 <= j < lines[i].len() ==> #[trigger] lines[i][j] != '\n'
                && lines[i][j] != '\r',
        lines.len() > 0 ==> lines.last().len() > 0,
    ensures
        annotation(joined(lines, seq!['\n']), name) == annotation_in(lines, name),
{
    lemma_lines_of_joined(lines);
}

/// What is written behind a marker and in the block below it is what the annotation says.
pub proof fn law_annotation_reads_block(
    margin: Seq<char>,
    name: Seq<char>,
    text: Seq<char>,
    block: Seq<Seq<char>>,
)
    requires
        is_blank(margin),
        forall|i: int|
            0 <= i < block.len() ==> !ends_block(
                #[trigger] block[i],
                indent(margin + marker(name) + text),
            ),
    ensures
        annotation_in(seq![margin + marker(name) + text] + block, name) == value(
            trimmed_start(text),
            block,
        ),
{
    let line = margin + marker(name) + text;
    let lines = seq![line] + block;
    let n = margin.len() as int;
    assert(line.subrange(n, n + marker(name).len()) =~= marker(name));
    assert forall|i: int| 0 <= i < n implies !occurs_at(line, marker(name), i) by {
        if occurs_at(line, marker(name), i) {
            assert(line.subrange(i, i + marker(name).len())[0] == line[i]);
            assert(is_white(margin[i]));
        }
    }
    assert(is_first_at(line, marker(name), n));
    lemma_first_at(line, marker(name), n);
    assert(line.skip(n + marker(name).len()) =~= text);
    assert(lines[0] == line);
    lemma_line_with_is(lines, marker(name), 0);
    assert(lines.skip(1) =~= block);
    lemma_block_len_is(block, indent(line), block.len() as int);
    assert(block.take(block.len() as int) =~= block);
}

/// An annotation on a line of its own says the text behind its marker, trimmed, unless that is
/// blank or the sign of a block.
pub proof fn law_annotation_reads_line(margin: Seq<char>, name: Seq<char>, text: Seq<char>)
    requires
        is_blank(margin),
        !begins_with(trimmed(text), seq!['|']),
        !begins_with(trimmed(text), seq!['>']),
    ensures
        annotation_in(seq![margin + marker(name) + text], name) == unless_blank(trimmed(text)),
{
    let line = margin + marker(name) + text;
    let none: Seq<Seq<char>> = seq![];
    law_annotation_reads_block(margin, name, text, none);
    assert(seq![line] + none =~= seq![line]);
    let behind = trimmed_start(text);
    lemma_trimmed(text);
    if behind.len() > 0 {
        let said = trimmed(text);
        assert(said[0] == behind[0]);
        assert(said.subrange(0, 1) =~= seq![said[0]]);
        if begins_with(behind, seq!['|']) {
            assert(behind.subrange(0, 1)[0] == '|');
        }
        if begins_with(behind, seq!['>']) {
            assert(behind.subrange(0, 1)[0] == '>');
        }
        assert(seq![behind] + plain_lines(none, block_indent(none)) =~= seq![behind]);
        lemma_leading_white(text);
        lemma_leading_white_is(behind, 0);
        assert(behind.skip(0) =~= behind);
    } else {
        assert(none + plain_lines(none, block_indent(none)) =~= none);
        assert(joined(none, seq!['\n']).len() == 0);
        lemma_trimmed(joined(none, seq!['\n']));
    }
}

} // verus!
