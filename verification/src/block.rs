//! Block scalars: indented lines after an annotation, kept as they are or folded into paragraphs.

use vstd::prelude::*;

use crate::text::{
    after_bytes, blank, byte_len, cuts, cuts_at, indent, indent_of, is_blank, is_white, join,
    joined, leading_white, lemma_byte_len_concat, lemma_byte_len_take, lemma_indent_cuts,
    lemma_leading_white, lemma_leading_white_is, lemma_lines_of_joined, lemma_trimmed, lines_of,
    skip_bytes, trim_newlines, trim_start, trimmed_start, views, without_newlines,
};

verus! {

/// The index of the first line that is not blank, or the number of lines where all are.
pub open spec fn first_content(lines: Seq<Seq<char>>) -> nat
    decreases lines.len(),
{
    if lines.len() == 0 || !is_blank(lines[0]) {
        0
    } else {
        1 + first_content(lines.drop_first())
    }
}

/// Whether a line is not blank.
pub open spec fn has_content(lines: Seq<Seq<char>>) -> bool {
    first_content(lines) < lines.len()
}

/// The indentation of a block: that of its first line that is not blank.
pub open spec fn block_indent(lines: Seq<Seq<char>>) -> nat {
    indent(lines[first_content(lines) as int])
}

/// Whether the indentation of the block can be cut off every line that is indented as far: it
/// never ends inside a white character that takes several bytes.
pub open spec fn cuts_cleanly(lines: Seq<Seq<char>>) -> bool {
    has_content(lines) ==> forall|i: int|
        0 <= i < lines.len() && !is_blank(#[trigger] lines[i]) && indent(lines[i]) >= block_indent(
            lines,
        ) ==> cuts_at(lines[i], block_indent(lines))
}

/// `line` without the indentation of its block, or without any where it is indented less.
pub open spec fn body(line: Seq<char>, base: nat) -> Seq<char> {
    if indent(line) >= base {
        after_bytes(line, base)
    } else {
        trimmed_start(line)
    }
}

/// A line of a literal block: empty for a blank one, and otherwise without the indentation of the
/// block.
pub open spec fn literal_line(line: Seq<char>, base: nat) -> Seq<char> {
    if is_blank(line) {
        seq![]
    } else {
        body(line, base)
    }
}

/// The lines up to the last one that is not empty.
pub open spec fn without_empty_end(lines: Seq<Seq<char>>) -> Seq<Seq<char>>
    decreases lines.len(),
{
    if lines.len() > 0 && lines.last().len() == 0 {
        without_empty_end(lines.drop_last())
    } else {
        lines
    }
}

/// What a literal block holds: its lines, line by line, without its indentation and without the
/// empty lines at its end.
pub open spec fn literal_block(lines: Seq<Seq<char>>) -> Seq<char> {
    if has_content(lines) {
        let base = block_indent(lines);
        joined(
            without_empty_end(lines.map_values(|line: Seq<char>| literal_line(line, base))),
            seq!['\n'],
        )
    } else {
        seq![]
    }
}

pub(crate) proof fn lemma_first_content(lines: Seq<Seq<char>>)
    ensures
        first_content(lines) <= lines.len(),
        forall|i: int| 0 <= i < first_content(lines) ==> is_blank(#[trigger] lines[i]),
        has_content(lines) ==> !is_blank(lines[first_content(lines) as int]),
        has_content(lines) <==> exists|i: int|
            0 <= i < lines.len() && !is_blank(#[trigger] lines[i]),
    decreases lines.len(),
{
    if lines.len() > 0 && is_blank(lines[0]) {
        let rest = lines.drop_first();
        lemma_first_content(rest);
        let n = first_content(lines) as int;
        assert forall|i: int| 0 <= i < n implies is_blank(#[trigger] lines[i]) by {
            if i > 0 {
                assert(lines[i] == rest[i - 1]);
            }
        }
        if has_content(lines) {
            assert(lines[n] == rest[n - 1]);
        }
    } else if lines.len() > 0 {
        assert(!is_blank(lines[0]));
    }
}

/// The indentation of the block that the lines make up, where one of them is not blank.
pub(crate) fn base_of(lines: &[&str]) -> (base: Option<usize>)
    ensures
        match base {
            Some(n) => has_content(views(lines@)) && n == block_indent(views(lines@)),
            None => !has_content(views(lines@)),
        },
{
    let mut i: usize = 0;
    let ghost all = views(lines@);
    while i < lines.len() && blank(lines[i])
        invariant
            i <= lines.len(),
            all == views(lines@),
            forall|j: int| 0 <= j < i ==> is_blank(#[trigger] all[j]),
        decreases lines.len() - i,
    {
        proof {
            assert(all[i as int] == lines@[i as int]@);
        }
        i = i + 1;
    }
    proof {
        lemma_first_content(all);
        if i < lines.len() {
            assert(all[i as int] == lines@[i as int]@);
        }
        let n = first_content(all) as int;
        if n < i {
            assert(is_blank(all[n]));
        }
        if i < n {
            assert(is_blank(all[i as int]));
        }
    }
    if i < lines.len() {
        Some(indent_of(lines[i]))
    } else {
        None
    }
}

/// Tells whether the indentation of the block can be cut off every line that is indented as far.
pub fn block_cuts_cleanly(lines: &[&str]) -> (yes: bool)
    ensures
        yes == cuts_cleanly(views(lines@)),
{
    let ghost all = views(lines@);
    match base_of(lines) {
        Some(base) => {
            let mut i: usize = 0;
            while i < lines.len()
                invariant
                    i <= lines.len(),
                    all == views(lines@),
                    has_content(all),
                    base == block_indent(all),
                    forall|j: int|
                        0 <= j < i && !is_blank(#[trigger] all[j]) && indent(all[j]) >= base
                            ==> cuts_at(all[j], base as nat),
                decreases lines.len() - i,
            {
                proof {
                    assert(all[i as int] == lines@[i as int]@);
                }
                if !blank(lines[i]) && indent_of(lines[i]) >= base && !cuts(lines[i], base) {
                    return false;
                }
                i = i + 1;
            }
            true
        },
        None => true,
    }
}

/// A line without the indentation of its block.
fn body_of<'a>(line: &'a str, base: usize) -> (rest: &'a str)
    requires
        indent(line@) >= base ==> cuts_at(line@, base as nat),
    ensures
        rest@ == body(line@, base as nat),
{
    if indent_of(line) >= base {
        skip_bytes(line, base)
    } else {
        trim_start(line)
    }
}

/// Reads a literal block (`|`): keeps line breaks, and indentation beyond that of the block.
pub fn parse_literal_block_scalar(lines: &[&str], _base_indent: usize) -> (block: String)
    requires
        cuts_cleanly(views(lines@)),
    ensures
        block@ == literal_block(views(lines@)),
{
    let ghost all = views(lines@);
    let base: usize = match base_of(lines) {
        Some(base) => base,
        None => {
            return String::new();
        },
    };
    let ghost whole = all.map_values(|line: Seq<char>| literal_line(line, base as nat));
    let mut result: Vec<&str> = Vec::new();
    let mut i: usize = 0;
    while i < lines.len()
        invariant
            i <= lines.len(),
            all == views(lines@),
            has_content(all),
            cuts_cleanly(all),
            base == block_indent(all),
            whole == all.map_values(|line: Seq<char>| literal_line(line, base as nat)),
            views(result@) == whole.take(i as int),
        decreases lines.len() - i,
    {
        let ghost earlier = result@;
        proof {
            assert(all[i as int] == lines@[i as int]@);
        }
        if blank(lines[i]) {
            proof {
                reveal_strlit("");
            }
            result.push("");
        } else {
            result.push(body_of(lines[i], base));
        }
        proof {
            assert(views(earlier).len() == i);
            assert(result@[i as int]@ =~= whole[i as int]);
            assert(views(result@) =~= views(earlier).push(whole[i as int]));
            assert(views(result@) =~= whole.take(i + 1));
        }
        i = i + 1;
    }
    proof {
        assert(whole.take(i as int) =~= whole);
    }
    while result.len() > 0 && result[result.len() - 1].is_empty()
        invariant
            without_empty_end(views(result@)) == without_empty_end(whole),
        decreases result.len(),
    {
        let ghost earlier = result@;
        result.pop();
        proof {
            assert(views(result@) =~= views(earlier).drop_last());
        }
    }
    proof {
        reveal_strlit("\n");
        assert("\n"@ =~= seq!['\n']);
        if result@.len() > 0 {
            assert(views(result@).last() == result@.last()@);
        }
    }
    join(&result, "\n")
}

/// How far the folding of a block has come: the finished text, the lines of the paragraph that is
/// still open, and whether the last line belongs to a run of lines indented further than the block.
pub struct Folding {
    pub text: Seq<char>,
    pub paragraph: Seq<Seq<char>>,
    pub literal: bool,
}

/// The finished text with the open paragraph, its lines joined by spaces, after it.
pub open spec fn with_paragraph(state: Folding) -> Seq<char> {
    state.text + joined(state.paragraph, seq![' '])
}

/// Folds one more line in. A blank line ends the open paragraph with an empty line, and is kept in
/// a run of lines that are indented further. A line that is indented further ends the open
/// paragraph and is kept, with the rest of its indentation. Any other line joins the paragraph.
pub open spec fn fold_line(state: Folding, line: Seq<char>, base: nat) -> Folding {
    if is_blank(line) {
        if state.literal {
            Folding { text: state.text.push('\n'), ..state }
        } else if state.paragraph.len() > 0 {
            Folding {
                text: with_paragraph(state).push('\n').push('\n'),
                paragraph: seq![],
                literal: false,
            }
        } else {
            state
        }
    } else if indent(line) > base {
        let start = if !state.literal && state.paragraph.len() > 0 {
            with_paragraph(state).push('\n')
        } else {
            state.text
        };
        Folding { text: (start + body(line, base)).push('\n'), paragraph: seq![], literal: true }
    } else {
        Folding {
            text: state.text,
            paragraph: state.paragraph.push(body(line, base)),
            literal: false,
        }
    }
}

/// Folds the lines in, one after the other.
pub open spec fn fold_lines(lines: Seq<Seq<char>>, base: nat) -> Folding
    decreases lines.len(),
{
    if lines.len() == 0 {
        Folding { text: seq![], paragraph: seq![], literal: false }
    } else {
        fold_line(fold_lines(lines.drop_last(), base), lines.last(), base)
    }
}

/// `text` with at most one of the line feeds that it ends with, and none where there is nothing
/// else.
pub open spec fn clipped(text: Seq<char>) -> Seq<char> {
    let core = without_newlines(text);
    if core.len() > 0 && core.len() < text.len() {
        core.push('\n')
    } else {
        core
    }
}

/// What a folded block holds.
pub open spec fn folded_block(lines: Seq<Seq<char>>) -> Seq<char> {
    if has_content(lines) {
        clipped(with_paragraph(fold_lines(lines, block_indent(lines))))
    } else {
        seq![]
    }
}

/// Outside a paragraph no line of one is left over.
proof fn lemma_fold_lines(lines: Seq<Seq<char>>, base: nat)
    ensures
        fold_lines(lines, base).literal ==> fold_lines(lines, base).paragraph.len() == 0,
    decreases lines.len(),
{
    if lines.len() > 0 {
        lemma_fold_lines(lines.drop_last(), base);
    }
}

/// Reads a folded block (`>`): joins lines into paragraphs, and keeps lines that are indented
/// further than the block.
pub fn parse_folded_block_scalar(lines: &[&str], _base_indent: usize) -> (block: String)
    requires
        cuts_cleanly(views(lines@)),
    ensures
        block@ == folded_block(views(lines@)),
{
    let ghost all = views(lines@);
    let base: usize = match base_of(lines) {
        Some(base) => base,
        None => {
            return String::new();
        },
    };
    let mut text: String = String::new();
    let mut paragraph: Vec<&str> = Vec::new();
    let mut literal: bool = false;
    let mut i: usize = 0;
    proof {
        assert(all.take(0).len() == 0);
        assert(views(paragraph@) =~= seq![]);
        assert(text@ =~= seq![]);
        reveal_strlit("\n");
        reveal_strlit("\n\n");
        reveal_strlit(" ");
        assert("\n"@ =~= seq!['\n']);
        assert("\n\n"@ =~= seq!['\n', '\n']);
        assert(" "@ =~= seq![' ']);
    }
    while i < lines.len()
        invariant
            i <= lines.len(),
            all == views(lines@),
            has_content(all),
            cuts_cleanly(all),
            base == block_indent(all),
            "\n"@ == seq!['\n'],
            "\n\n"@ == seq!['\n', '\n'],
            " "@ == seq![' '],
            fold_lines(all.take(i as int), base as nat) == (Folding {
                text: text@,
                paragraph: views(paragraph@),
                literal,
            }),
        decreases lines.len() - i,
    {
        let ghost state = fold_lines(all.take(i as int), base as nat);
        let ghost next = fold_lines(all.take(i + 1), base as nat);
        let ghost open = paragraph@;
        proof {
            assert(all[i as int] == lines@[i as int]@);
            assert(all.take(i + 1).drop_last() =~= all.take(i as int));
            assert(all.take(i + 1).last() == all[i as int]);
            lemma_fold_lines(all.take(i as int), base as nat);
        }
        if blank(lines[i]) {
            if literal {
                text.append("\n");
                proof {
                    assert(text@ =~= next.text);
                }
            } else if paragraph.len() > 0 {
                text.append(join(&paragraph, " ").as_str());
                text.append("\n\n");
                paragraph.clear();
                proof {
                    assert(text@ =~= next.text);
                    assert(views(paragraph@) =~= next.paragraph);
                }
            }
        } else {
            let content = body_of(lines[i], base);
            if indent_of(lines[i]) > base {
                if !literal {
                    if paragraph.len() > 0 {
                        text.append(join(&paragraph, " ").as_str());
                        text.append("\n");
                        paragraph.clear();
                    }
                    literal = true;
                }
                text.append(content);
                text.append("\n");
                proof {
                    assert(text@ =~= next.text);
                    assert(views(paragraph@) =~= next.paragraph);
                }
            } else {
                // Every line of a literal run ends with a line feed, so none is to be closed here.
                literal = false;
                paragraph.push(content);
                proof {
                    assert(views(paragraph@) =~= views(open).push(content@));
                }
            }
        }
        i = i + 1;
    }
    proof {
        assert(all.take(i as int) =~= all);
    }
    if paragraph.len() > 0 {
        text.append(join(&paragraph, " ").as_str());
    }
    proof {
        let state = fold_lines(all, base as nat);
        assert(text@ =~= with_paragraph(state));
    }
    let core = trim_newlines(text.as_str());
    let mut block: String = core.to_owned();
    if !core.is_empty() && core.unicode_len() < text.as_str().unicode_len() {
        block.append("\n");
        proof {
            assert(block@ =~= core@.push('\n'));
        }
    }
    block
}

/// Cutting the indentation of a block off a line leaves the rest of its indentation, and its
/// content.
pub proof fn law_body_keeps_relative_indent(line: Seq<char>, base: nat)
    requires
        indent(line) >= base,
        cuts_at(line, base),
    ensures
        indent(body(line, base)) == indent(line) - base,
        trimmed_start(body(line, base)) == trimmed_start(line),
{
    let k = choose|k: int| 0 <= k <= line.len() && #[trigger] byte_len(line.take(k)) == base;
    let n = leading_white(line) as int;
    lemma_leading_white(line);
    if n < k {
        lemma_byte_len_take(line, n, k);
    }
    let rest = line.skip(k);
    assert forall|i: int| 0 <= i < n - k implies is_white(#[trigger] rest[i]) by {
        assert(rest[i] == line[k + i]);
    }
    if n - k < rest.len() {
        assert(rest[n - k] == line[n]);
    }
    lemma_leading_white_is(rest, n - k);
    lemma_byte_len_concat(line.take(k), line.subrange(k, n));
    assert(line.take(k) + line.subrange(k, n) =~= line.take(n));
    assert(rest.take(n - k) =~= line.subrange(k, n));
    assert(rest.skip(n - k) =~= line.skip(n));
}

/// Line breaks are kept: the lines of a literal block are the lines that it was read from, each
/// without the indentation of the block, up to the last one that is not blank.
pub proof fn law_literal_block_keeps_lines(lines: Seq<Seq<char>>)
    requires
        cuts_cleanly(lines),
        forall|i: int, j: int|
            0 <= i < lines.len() && 0 <= j < lines[i].len() ==> #[trigger] lines[i][j] != '\n'
                && lines[i][j] != '\r',
    ensures
        lines_of(literal_block(lines)) == (if has_content(lines) {
            without_empty_end(
                lines.map_values(|line: Seq<char>| literal_line(line, block_indent(lines))),
            )
        } else {
            seq![]
        }),
{
    if has_content(lines) {
        let base = block_indent(lines);
        let whole = lines.map_values(|line: Seq<char>| literal_line(line, base));
        let kept = without_empty_end(whole);
        lemma_without_empty_end(whole);
        assert forall|i: int, j: int| 0 <= i < kept.len() && 0 <= j < kept[i].len() implies
            #[trigger] kept[i][j] != '\n' && kept[i][j] != '\r' by {
            let line = lines[i];
            assert(kept[i] == whole[i]);
            assert(whole[i] == literal_line(line, base));
            if indent(line) >= base {
                assert(cuts_at(line, base));
                let k = choose|k: int|
                    0 <= k <= line.len() && #[trigger] byte_len(line.take(k)) == base;
                assert(kept[i][j] == line[k + j]);
            } else {
                lemma_leading_white(line);
                assert(kept[i][j] == line[leading_white(line) as int + j]);
            }
        }
        lemma_lines_of_joined(kept);
    }
}

proof fn lemma_without_empty_end(lines: Seq<Seq<char>>)
    ensures
        without_empty_end(lines).len() <= lines.len(),
        without_empty_end(lines) == lines.take(without_empty_end(lines).len() as int),
        without_empty_end(lines).len() > 0 ==> without_empty_end(lines).last().len() > 0,
    decreases lines.len(),
{
    if lines.len() > 0 && lines.last().len() == 0 {
        lemma_without_empty_end(lines.drop_last());
        let n = without_empty_end(lines).len() as int;
        assert(lines.drop_last().take(n) =~= lines.take(n));
    } else {
        assert(lines.take(lines.len() as int) =~= lines);
    }
}

proof fn lemma_fold_paragraph(lines: Seq<Seq<char>>, base: nat)
    requires
        forall|i: int|
            0 <= i < lines.len() ==> !is_blank(#[trigger] lines[i]) && indent(lines[i]) <= base,
    ensures
        fold_lines(lines, base) == (Folding {
            text: seq![],
            paragraph: lines.map_values(|line: Seq<char>| trimmed_start(line)),
            literal: false,
        }),
    decreases lines.len(),
{
    let trim = |line: Seq<char>| trimmed_start(line);
    if lines.len() == 0 {
        assert(lines.map_values(trim) =~= seq![]);
    } else {
        let line = lines.last();
        let start = lines.drop_last();
        assert forall|i: int| 0 <= i < start.len() implies !is_blank(#[trigger] start[i]) && indent(
            start[i],
        ) <= base by {
            assert(start[i] == lines[i]);
        }
        lemma_fold_paragraph(start, base);
        assert(line == lines[lines.len() - 1]);
        lemma_indent_cuts(line);
        assert(lines.map_values(trim) =~= start.map_values(trim).push(trimmed_start(line)));
    }
}

/// Lines are folded into a paragraph: where no line is blank or indented further than the first,
/// the block is what the lines hold, joined by spaces.
pub proof fn law_folded_block_joins_paragraph(lines: Seq<Seq<char>>)
    requires
        lines.len() > 0,
        forall|i: int|
            0 <= i < lines.len() ==> !is_blank(#[trigger] lines[i]) && indent(lines[i])
                <= indent(lines[0]),
        lines.last().last() != '\n',
    ensures
        folded_block(lines) == joined(
            lines.map_values(|line: Seq<char>| trimmed_start(line)),
            seq![' '],
        ),
{
    let trim = |line: Seq<char>| trimmed_start(line);
    assert(!is_blank(lines[0]));
    assert(first_content(lines) == 0);
    lemma_fold_paragraph(lines, block_indent(lines));
    let parts = lines.map_values(trim);
    let whole = joined(parts, seq![' ']);
    assert(with_paragraph(fold_lines(lines, block_indent(lines))) =~= whole);
    let line = lines.last();
    assert(line == lines[lines.len() - 1]);
    lemma_trimmed(line);
    lemma_leading_white(line);
    assert(parts.last() == trimmed_start(line));
    assert(parts.last().last() == line.last());
    assert(whole.last() == parts.last().last());
    assert(without_newlines(whole) == whole);
}

/// The bodies of a line and of the further indented lines below it.
spec fn bodies(first: Seq<char>, rest: Seq<Seq<char>>) -> Seq<Seq<char>> {
    seq![trimmed_start(first)] + rest.map_values(|line: Seq<char>| body(line, indent(first)))
}

proof fn lemma_fold_indented(first: Seq<char>, rest: Seq<Seq<char>>)
    requires
        !is_blank(first),
        forall|i: int|
            0 <= i < rest.len() ==> !is_blank(#[trigger] rest[i]) && indent(rest[i]) > indent(
                first,
            ),
    ensures
        fold_lines(seq![first] + rest, indent(first)) == (if rest.len() == 0 {
            Folding { text: seq![], paragraph: seq![trimmed_start(first)], literal: false }
        } else {
            Folding {
                text: joined(bodies(first, rest), seq!['\n']).push('\n'),
                paragraph: seq![],
                literal: true,
            }
        }),
    decreases rest.len(),
{
    let base = indent(first);
    let lines = seq![first] + rest;
    let trim = |line: Seq<char>| trimmed_start(line);
    if rest.len() == 0 {
        assert(lines =~= seq![first]);
        assert forall|i: int| 0 <= i < lines.len() implies !is_blank(#[trigger] lines[i])
            && indent(lines[i]) <= base by {}
        lemma_fold_paragraph(lines, base);
        assert(lines.map_values(trim) =~= seq![trimmed_start(first)]);
    } else {
        let earlier = rest.drop_last();
        let line = rest.last();
        assert(line == rest[rest.len() - 1]);
        assert forall|i: int| 0 <= i < earlier.len() implies !is_blank(#[trigger] earlier[i])
            && indent(earlier[i]) > base by {
            assert(earlier[i] == rest[i]);
        }
        lemma_fold_indented(first, earlier);
        assert(lines.drop_last() =~= seq![first] + earlier);
        let whole = bodies(first, rest);
        assert(whole.drop_last() =~= bodies(first, earlier));
        assert(whole.last() == body(line, base));
        reveal_with_fuel(joined, 2);
        if earlier.len() == 0 {
            assert(bodies(first, earlier) =~= seq![trimmed_start(first)]);
            assert(with_paragraph(fold_lines(seq![first] + earlier, base)) =~= trimmed_start(
                first,
            ));
        }
        assert(fold_lines(lines, base).text =~= joined(whole, seq!['\n']).push('\n'));
    }
}

/// Further indented lines are kept: where all lines below the first are indented further, the block
/// is the first line and these, line by line, each without the indentation of the block.
pub proof fn law_folded_block_keeps_indented_lines(first: Seq<char>, rest: Seq<Seq<char>>)
    requires
        !is_blank(first),
        rest.len() > 0,
        forall|i: int|
            0 <= i < rest.len() ==> !is_blank(#[trigger] rest[i]) && indent(rest[i]) > indent(
                first,
            ),
        rest.last().last() != '\n',
        cuts_cleanly(seq![first] + rest),
    ensures
        folded_block(seq![first] + rest) == joined(
            seq![trimmed_start(first)] + rest.map_values(
                |line: Seq<char>| body(line, indent(first)),
            ),
            seq!['\n'],
        ) + seq!['\n'],
{
    let lines = seq![first] + rest;
    let base = indent(first);
    let line = rest.last();
    assert(lines[0] == first);
    assert(first_content(lines) == 0);
    lemma_fold_indented(first, rest);
    let whole = joined(bodies(first, rest), seq!['\n']);
    assert(with_paragraph(fold_lines(lines, base)) =~= whole.push('\n'));
    assert(line == rest[rest.len() - 1] && line == lines[lines.len() - 1]);
    law_body_keeps_relative_indent(line, base);
    let own = body(line, base);
    lemma_trimmed(line);
    lemma_leading_white(line);
    lemma_leading_white(own);
    assert(own.last() == trimmed_start(own).last());
    assert(own.last() == line.last());
    assert(bodies(first, rest).last() == own);
    assert(whole.last() == own.last());
    assert(whole.push('\n').drop_last() =~= whole);
    reveal_with_fuel(without_newlines, 2);
    assert(clipped(whole.push('\n')) =~= whole + seq!['\n']);
}

/// A folded block ends with one line feed at most.
pub proof fn law_folded_block_is_clipped(lines: Seq<Seq<char>>)
    ensures
        ({
            let block = folded_block(lines);
            block.len() > 0 && block.last() == '\n' ==> block.len() > 1 && block[block.len() - 2]
                != '\n'
        }),
{
    if has_content(lines) {
        lemma_without_newlines(with_paragraph(fold_lines(lines, block_indent(lines))));
    }
}

proof fn lemma_without_newlines(text: Seq<char>)
    ensures
        without_newlines(text).len() <= text.len(),
        without_newlines(text).len() > 0 ==> without_newlines(text).last() != '\n',
    decreases text.len(),
{
    if text.len() > 0 && text.last() == '\n' {
        lemma_without_newlines(text.drop_last());
    }
}

} // verus!
