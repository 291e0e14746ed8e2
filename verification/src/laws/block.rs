//! Laws on literal and folded blocks.

use vstd::prelude::*;

use crate::block::{
    body, clipped, cuts_cleanly, first_content, fold_lines, folded_block,
    law_body_keeps_relative_indent, lemma_first_content, literal_block, literal_line,
    with_paragraph, without_empty_end, Folding,
};
use crate::laws::text::{law_bytes_are_cut, law_joined_in_parts, law_line_feeds_are_dropped};
use crate::text::{
    byte_len, cuts_at, indent, is_blank, joined, lemma_indent_cuts, lemma_leading_white,
    lemma_trimmed, trimmed_start, without_newlines,
};

verus! {

/// Whether `own` is what is left of `line` once as many bytes as `base` are cut off its start.
pub open spec fn is_cut(line: Seq<char>, base: nat, own: Seq<char>) -> bool {
    exists|start: Seq<char>| line == #[trigger] (start + own) && byte_len(start) == base
}

pub(crate) proof fn lemma_cut(line: Seq<char>, base: nat, own: Seq<char>)
    requires
        is_cut(line, base, own),
        indent(line) >= base,
    ensures
        cuts_at(line, base),
        body(line, base) == own,
{
    let start = choose|start: Seq<char>| line == #[trigger] (start + own) && byte_len(start)
        == base;
    law_bytes_are_cut(start, own);
}

pub(crate) proof fn lemma_first_content_is(lines: Seq<Seq<char>>, first: int)
    requires
        0 <= first < lines.len(),
        forall|i: int| 0 <= i < first ==> is_blank(#[trigger] lines[i]),
        !is_blank(lines[first]),
    ensures
        first_content(lines) == first,
{
    lemma_first_content(lines);
    let n = first_content(lines) as int;
    if n < first {
        assert(is_blank(lines[n]));
    }
    if first < n {
        assert(is_blank(lines[first]));
    }
}

proof fn lemma_without_empty_end_is(lines: Seq<Seq<char>>, n: int)
    requires
        0 <= n <= lines.len(),
        n > 0 ==> lines[n - 1].len() > 0,
        forall|i: int| n <= i < lines.len() ==> (#[trigger] lines[i]).len() == 0,
    ensures
        without_empty_end(lines) == lines.take(n),
    decreases lines.len(),
{
    if n < lines.len() {
        assert(lines[lines.len() - 1].len() == 0);
        let rest = lines.drop_last();
        assert forall|i: int| n <= i < rest.len() implies (#[trigger] rest[i]).len() == 0 by {
            assert(rest[i] == lines[i]);
        }
        lemma_without_empty_end_is(rest, n);
        assert(rest.take(n) =~= lines.take(n));
    } else {
        assert(lines.take(n) =~= lines);
    }
}

/// What is left of a line that is not blank is not empty, and ends as the line does.
proof fn lemma_body(line: Seq<char>, base: nat)
    requires
        !is_blank(line),
        indent(line) >= base ==> cuts_at(line, base),
    ensures
        body(line, base).len() > 0,
        body(line, base).last() == line.last(),
{
    let own = body(line, base);
    lemma_trimmed(line);
    lemma_leading_white(line);
    assert(trimmed_start(line).last() == line.last());
    if indent(line) >= base {
        law_body_keeps_relative_indent(line, base);
        lemma_leading_white(own);
        assert(trimmed_start(own).last() == own.last());
    }
}

/// A literal block holds all lines up to the last one that is not blank, from the first on, each on
/// a line of its own: a blank one empty, and any other without the indentation of the first line
/// that is not blank, or without any where it is indented less.
pub proof fn law_literal_block_is(
    lines: Seq<Seq<char>>,
    first: int,
    last: int,
    out: Seq<Seq<char>>,
)
    requires
        0 <= first <= last < lines.len(),
        forall|i: int| 0 <= i < first ==> is_blank(#[trigger] lines[i]),
        !is_blank(lines[first]),
        !is_blank(lines[last]),
        forall|i: int| last < i < lines.len() ==> is_blank(#[trigger] lines[i]),
        out.len() == last + 1,
        forall|i: int|
            0 <= i <= last ==> if is_blank(lines[i]) {
                (#[trigger] out[i]).len() == 0
            } else if indent(lines[i]) >= indent(lines[first]) {
                is_cut(lines[i], indent(lines[first]), out[i])
            } else {
                out[i] == trimmed_start(lines[i])
            },
    ensures
        literal_block(lines) == joined(out, seq!['\n']),
{
    lemma_first_content_is(lines, first);
    let base = indent(lines[first]);
    let whole = lines.map_values(|line: Seq<char>| literal_line(line, base));
    assert forall|i: int| 0 <= i <= last implies whole[i] == #[trigger] out[i] by {
        if !is_blank(lines[i]) && indent(lines[i]) >= base {
            lemma_cut(lines[i], base, out[i]);
        } else if is_blank(lines[i]) {
            assert(out[i] =~= whole[i]);
        }
    }
    assert(whole.take(last + 1) =~= out);
    assert(out[last] == whole[last]);
    if indent(lines[last]) >= base {
        lemma_cut(lines[last], base, out[last]);
    }
    lemma_body(lines[last], base);
    assert forall|i: int| last + 1 <= i < whole.len() implies (#[trigger] whole[i]).len() == 0 by {
        assert(is_blank(lines[i]));
    }
    lemma_without_empty_end_is(whole, last + 1);
}

/// A block of blank lines holds nothing.
pub proof fn law_blank_block_is_empty(lines: Seq<Seq<char>>)
    requires
        forall|i: int| 0 <= i < lines.len() ==> is_blank(#[trigger] lines[i]),
    ensures
        literal_block(lines).len() == 0,
        folded_block(lines).len() == 0,
{
    lemma_first_content(lines);
}

/// Text that ends with no line feed, or with one behind another character, stays as it is.
proof fn lemma_clipped(text: Seq<char>)
    requires
        text.len() > 0,
        text.last() == '\n' ==> text.len() > 1 && text[text.len() - 2] != '\n',
    ensures
        clipped(text) == text,
{
    if text.last() == '\n' {
        assert(text.drop_last().last() == text[text.len() - 2]);
        reveal_with_fuel(without_newlines, 2);
        assert(text.drop_last().push('\n') =~= text);
    }
}

/// What the folding of lines has come to that end with one that is not blank.
proof fn lemma_fold_state(lines: Seq<Seq<char>>, base: nat)
    requires
        lines.len() > 0,
        !is_blank(lines.last()),
        lines.last().last() != '\n',
        indent(lines.last()) > base ==> cuts_at(lines.last(), base),
    ensures
        ({
            let state = fold_lines(lines, base);
            let whole = with_paragraph(state);
            let kept = indent(lines.last()) > base;
            &&& state.literal == kept
            &&& kept <==> state.paragraph.len() == 0
            &&& whole.len() > 0
            &&& kept ==> whole.len() > 1 && whole.last() == '\n' && whole[whole.len() - 2] != '\n'
            &&& !kept ==> whole.last() != '\n'
            &&& clipped(whole) == whole
        }),
{
    let line = lines.last();
    let earlier = fold_lines(lines.drop_last(), base);
    let state = fold_lines(lines, base);
    let whole = with_paragraph(state);
    if indent(line) == base {
        lemma_indent_cuts(line);
    }
    lemma_body(line, base);
    let own = body(line, base);
    if indent(line) > base {
        assert(whole =~= state.text);
        assert(whole[whole.len() - 2] == own.last());
    } else {
        assert(state.paragraph.last() == own);
        if state.paragraph.len() > 1 {
            assert(joined(state.paragraph, seq![' ']).last() == own.last());
        }
        assert(whole.last() == own.last());
    }
    lemma_clipped(whole);
}

/// What the folding of lines has come to with blank lines behind them.
proof fn lemma_fold_gap(lines: Seq<Seq<char>>, gap: Seq<Seq<char>>, base: nat)
    requires
        forall|i: int| 0 <= i < gap.len() ==> is_blank(#[trigger] gap[i]),
        fold_lines(lines, base).literal <==> fold_lines(lines, base).paragraph.len() == 0,
    ensures
        ({
            let state = fold_lines(lines, base);
            let later = fold_lines(lines + gap, base);
            if gap.len() == 0 {
                later == state
            } else if state.literal {
                later == (Folding {
                    text: state.text + Seq::new(gap.len(), |i: int| '\n'),
                    paragraph: state.paragraph,
                    literal: true,
                })
            } else {
                later == (Folding {
                    text: with_paragraph(state) + seq!['\n', '\n'],
                    paragraph: seq![],
                    literal: false,
                })
            }
        }),
    decreases gap.len(),
{
    let state = fold_lines(lines, base);
    let later = fold_lines(lines + gap, base);
    if gap.len() == 0 {
        assert(lines + gap =~= lines);
    } else {
        let shorter = gap.drop_last();
        assert forall|i: int| 0 <= i < shorter.len() implies is_blank(#[trigger] shorter[i]) by {
            assert(shorter[i] == gap[i]);
        }
        lemma_fold_gap(lines, shorter, base);
        assert((lines + gap).drop_last() =~= lines + shorter);
        assert((lines + gap).last() == gap[gap.len() - 1]);
        if state.literal {
            assert(later.text =~= state.text + Seq::new(gap.len(), |i: int| '\n'));
        } else if shorter.len() == 0 {
            assert(later.text =~= with_paragraph(state) + seq!['\n', '\n']);
        }
    }
}

/// A folded block begins with its first line that is not blank.
pub proof fn law_folded_block_begins(gap: Seq<Seq<char>>, line: Seq<char>)
    requires
        forall|i: int| 0 <= i < gap.len() ==> is_blank(#[trigger] gap[i]),
        !is_blank(line),
        line.last() != '\n',
    ensures
        folded_block(gap + seq![line]) == trimmed_start(line),
{
    let lines = gap + seq![line];
    let n = gap.len() as int;
    assert forall|i: int| 0 <= i < n implies is_blank(#[trigger] lines[i]) by {
        assert(lines[i] == gap[i]);
    }
    assert(lines[n] == line);
    lemma_first_content_is(lines, n);
    let base = indent(line);
    lemma_fold_blank(gap, base);
    assert(lines.drop_last() =~= gap);
    lemma_indent_cuts(line);
    lemma_fold_state(lines, base);
    let state = fold_lines(lines, base);
    assert(state.paragraph =~= seq![trimmed_start(line)]);
    assert(with_paragraph(state) =~= trimmed_start(line));
}

proof fn lemma_fold_blank(gap: Seq<Seq<char>>, base: nat)
    requires
        forall|i: int| 0 <= i < gap.len() ==> is_blank(#[trigger] gap[i]),
    ensures
        fold_lines(gap, base) == (Folding { text: seq![], paragraph: seq![], literal: false }),
    decreases gap.len(),
{
    if gap.len() > 0 {
        let shorter = gap.drop_last();
        assert forall|i: int| 0 <= i < shorter.len() implies is_blank(#[trigger] shorter[i]) by {
            assert(shorter[i] == gap[i]);
        }
        lemma_fold_blank(shorter, base);
        assert(is_blank(gap[gap.len() - 1]));
    }
}

/// What stands in a folded block between a line and the next one that is not blank. A line that is
/// kept has a line feed of its own, and every blank line behind it is kept as well. A paragraph
/// goes on with a space, ends with a line feed before a line that is kept, and with an empty line
/// before blank lines.
pub open spec fn between(kept: bool, next_kept: bool, blank_lines: nat) -> Seq<char> {
    if kept {
        Seq::new(blank_lines, |i: int| '\n')
    } else if blank_lines > 0 {
        seq!['\n', '\n']
    } else if next_kept {
        seq!['\n']
    } else {
        seq![' ']
    }
}

/// Every line counts: a folded block with one more line, after any number of blank ones, is the
/// block without it, what stands between, and that line. A line that is indented no further than
/// the first one is taken without its indentation. A line that is indented further is kept: without
/// the indentation of the first one, and with a line feed.
pub proof fn law_folded_block_goes_on(
    lines: Seq<Seq<char>>,
    first: int,
    gap: Seq<Seq<char>>,
    line: Seq<char>,
    own: Seq<char>,
)
    requires
        0 <= first < lines.len(),
        forall|i: int| 0 <= i < first ==> is_blank(#[trigger] lines[i]),
        !is_blank(lines[first]),
        !is_blank(lines.last()),
        lines.last().last() != '\n',
        indent(lines.last()) > indent(lines[first]) ==> cuts_at(
            lines.last(),
            indent(lines[first]),
        ),
        forall|i: int| 0 <= i < gap.len() ==> is_blank(#[trigger] gap[i]),
        !is_blank(line),
        line.last() != '\n',
        if indent(line) > indent(lines[first]) {
            is_cut(line, indent(lines[first]), own)
        } else {
            own == trimmed_start(line)
        },
    ensures
        folded_block(lines + gap + seq![line]) == folded_block(lines) + between(
            indent(lines.last()) > indent(lines[first]),
            indent(line) > indent(lines[first]),
            gap.len(),
        ) + own + (if indent(line) > indent(lines[first]) {
            seq!['\n']
        } else {
            seq![]
        }),
{
    let base = indent(lines[first]);
    let all = lines + gap + seq![line];
    lemma_first_content_is(lines, first);
    assert forall|i: int| 0 <= i < first implies is_blank(#[trigger] all[i]) by {
        assert(all[i] == lines[i]);
    }
    assert(all[first] == lines[first]);
    lemma_first_content_is(all, first);
    if indent(line) > base {
        lemma_cut(line, base, own);
    } else if indent(line) == base {
        lemma_indent_cuts(line);
    }
    assert(body(line, base) == own);
    lemma_fold_state(lines, base);
    lemma_fold_gap(lines, gap, base);
    assert(all.last() == line);
    assert(all.drop_last() =~= lines + gap);
    lemma_fold_state(all, base);
    let state = fold_lines(lines, base);
    let later = fold_lines(lines + gap, base);
    let now = fold_lines(all, base);
    let kept = indent(lines.last()) > base;
    let none: Seq<char> = seq![];
    reveal_with_fuel(joined, 2);
    let expected = with_paragraph(state) + between(kept, indent(line) > base, gap.len()) + own + (
    if indent(line) > base {
        seq!['\n']
    } else {
        none
    });
    if kept {
        assert(with_paragraph(state) =~= state.text);
    }
    if indent(line) > base {
        assert(with_paragraph(now) =~= expected);
    } else {
        if later.paragraph.len() == 0 {
            assert(now.paragraph =~= seq![own]);
        } else {
            assert(now.paragraph.drop_last() =~= later.paragraph);
        }
        assert(with_paragraph(now) =~= expected);
    }
}

/// Blank lines at the end of a folded block leave one line feed.
pub proof fn law_folded_block_ends(lines: Seq<Seq<char>>, first: int, gap: Seq<Seq<char>>)
    requires
        0 <= first < lines.len(),
        forall|i: int| 0 <= i < first ==> is_blank(#[trigger] lines[i]),
        !is_blank(lines[first]),
        !is_blank(lines.last()),
        lines.last().last() != '\n',
        indent(lines.last()) > indent(lines[first]) ==> cuts_at(
            lines.last(),
            indent(lines[first]),
        ),
        gap.len() > 0,
        forall|i: int| 0 <= i < gap.len() ==> is_blank(#[trigger] gap[i]),
    ensures
        folded_block(lines + gap) == (if indent(lines.last()) > indent(lines[first]) {
            folded_block(lines)
        } else {
            folded_block(lines).push('\n')
        }),
{
    let base = indent(lines[first]);
    let all = lines + gap;
    lemma_first_content_is(lines, first);
    assert forall|i: int| 0 <= i < first implies is_blank(#[trigger] all[i]) by {
        assert(all[i] == lines[i]);
    }
    assert(all[first] == lines[first]);
    lemma_first_content_is(all, first);
    lemma_fold_state(lines, base);
    lemma_fold_gap(lines, gap, base);
    let state = fold_lines(lines, base);
    let whole = with_paragraph(state);
    let later = with_paragraph(fold_lines(all, base));
    if indent(lines.last()) > base {
        let core = whole.drop_last();
        let feeds = Seq::new(gap.len() + 1, |i: int| '\n');
        assert(core.last() == whole[whole.len() - 2]);
        assert(later =~= core + feeds);
        law_line_feeds_are_dropped(core, feeds);
        assert(core.push('\n') =~= whole);
    } else {
        let feeds = seq!['\n', '\n'];
        assert(later =~= whole + feeds);
        law_line_feeds_are_dropped(whole, feeds);
    }
}

/// A paragraph behind blank lines, or behind lines that are kept, is all of its lines joined by
/// spaces, behind what the block was before.
pub proof fn law_folded_block_adds_paragraph(
    lines: Seq<Seq<char>>,
    first: int,
    gap: Seq<Seq<char>>,
    paragraph: Seq<Seq<char>>,
)
    requires
        0 <= first < lines.len(),
        forall|i: int| 0 <= i < first ==> is_blank(#[trigger] lines[i]),
        !is_blank(lines[first]),
        !is_blank(lines.last()),
        lines.last().last() != '\n',
        indent(lines.last()) > indent(lines[first]) ==> cuts_at(
            lines.last(),
            indent(lines[first]),
        ),
        forall|i: int| 0 <= i < gap.len() ==> is_blank(#[trigger] gap[i]),
        paragraph.len() > 0,
        forall|i: int|
            0 <= i < paragraph.len() ==> !is_blank(#[trigger] paragraph[i]) && indent(paragraph[i])
                <= indent(lines[first]) && paragraph[i].last() != '\n',
    ensures
        folded_block(lines + gap + paragraph) == folded_block(lines) + between(
            indent(lines.last()) > indent(lines[first]),
            false,
            gap.len(),
        ) + joined(paragraph.map_values(|line: Seq<char>| trimmed_start(line)), seq![' ']),
    decreases paragraph.len(),
{
    let trim = |line: Seq<char>| trimmed_start(line);
    let line = paragraph.last();
    let start = paragraph.drop_last();
    let kept = indent(lines.last()) > indent(lines[first]);
    assert(line == paragraph[paragraph.len() - 1]);
    if start.len() == 0 {
        law_folded_block_goes_on(lines, first, gap, line, trimmed_start(line));
        assert(paragraph =~= seq![line]);
        assert(paragraph.map_values(trim) =~= seq![trimmed_start(line)]);
        assert(folded_block(lines + gap + paragraph) =~= folded_block(lines) + between(
            kept,
            false,
            gap.len(),
        ) + joined(paragraph.map_values(trim), seq![' ']));
    } else {
        assert forall|i: int| 0 <= i < start.len() implies !is_blank(#[trigger] start[i]) && indent(
            start[i],
        ) <= indent(lines[first]) && start[i].last() != '\n' by {
            assert(start[i] == paragraph[i]);
        }
        law_folded_block_adds_paragraph(lines, first, gap, start);
        let all = lines + gap + start;
        assert forall|i: int| 0 <= i < first implies is_blank(#[trigger] all[i]) by {
            assert(all[i] == lines[i]);
        }
        assert(all[first] == lines[first]);
        assert(all.last() == start[start.len() - 1]);
        law_folded_block_goes_on(all, first, seq![], line, trimmed_start(line));
        assert(all + Seq::<Seq<char>>::empty() + seq![line] =~= lines + gap + paragraph);
        let parts = paragraph.map_values(trim);
        assert(parts.drop_last() =~= start.map_values(trim));
        assert(parts.last() == trimmed_start(line));
        assert(folded_block(lines + gap + paragraph) =~= folded_block(lines) + between(
            kept,
            false,
            gap.len(),
        ) + joined(parts, seq![' ']));
    }
}

/// Paragraphs one after the other, with an empty line between each and the next.
pub open spec fn laid_out(paragraphs: Seq<Seq<Seq<char>>>) -> Seq<Seq<char>>
    decreases paragraphs.len(),
{
    if paragraphs.len() == 0 {
        seq![]
    } else if paragraphs.len() == 1 {
        paragraphs[0]
    } else {
        laid_out(paragraphs.drop_last()) + seq![seq![]] + paragraphs.last()
    }
}

proof fn lemma_laid_out(paragraphs: Seq<Seq<Seq<char>>>)
    requires
        paragraphs.len() > 0,
        forall|k: int| 0 <= k < paragraphs.len() ==> (#[trigger] paragraphs[k]).len() > 0,
    ensures
        laid_out(paragraphs).len() > 0,
        laid_out(paragraphs)[0] == paragraphs[0][0],
        laid_out(paragraphs).last() == paragraphs.last().last(),
    decreases paragraphs.len(),
{
    if paragraphs.len() > 1 {
        let earlier = paragraphs.drop_last();
        assert forall|k: int| 0 <= k < earlier.len() implies (#[trigger] earlier[k]).len() > 0 by {
            assert(earlier[k] == paragraphs[k]);
        }
        lemma_laid_out(earlier);
        assert(paragraphs[paragraphs.len() - 1].len() > 0);
    }
}

/// A block of several paragraphs is, paragraph by paragraph, all of its lines joined by spaces, the
/// paragraphs parted by an empty line.
pub proof fn law_folded_block_is_paragraphs(paragraphs: Seq<Seq<Seq<char>>>)
    requires
        paragraphs.len() > 0,
        forall|k: int| 0 <= k < paragraphs.len() ==> (#[trigger] paragraphs[k]).len() > 0,
        forall|k: int, i: int|
            0 <= k < paragraphs.len() && 0 <= i < paragraphs[k].len() ==> !is_blank(
                #[trigger] paragraphs[k][i],
            ) && indent(paragraphs[k][i]) <= indent(paragraphs[0][0]) && paragraphs[k][i].last()
                != '\n',
    ensures
        folded_block(laid_out(paragraphs)) == joined(
            paragraphs.map_values(
                |paragraph: Seq<Seq<char>>|
                    joined(paragraph.map_values(|line: Seq<char>| trimmed_start(line)), seq![' ']),
            ),
            seq!['\n', '\n'],
        ),
    decreases paragraphs.len(),
{
    let trim = |line: Seq<char>| trimmed_start(line);
    let fold = |paragraph: Seq<Seq<char>>| joined(paragraph.map_values(trim), seq![' ']);
    let parts = paragraphs.map_values(fold);
    let none: Seq<Seq<char>> = seq![];
    if paragraphs.len() == 1 {
        let only = paragraphs[0];
        assert(only.len() > 0);
        let line = only[0];
        assert(!is_blank(paragraphs[0][0]));
        law_folded_block_begins(none, line);
        assert(none + seq![line] =~= seq![line]);
        if only.len() > 1 {
            let rest = only.drop_first();
            assert forall|i: int| 0 <= i < rest.len() implies !is_blank(#[trigger] rest[i])
                && indent(rest[i]) <= indent(line) && rest[i].last() != '\n' by {
                assert(rest[i] == paragraphs[0][i + 1]);
            }
            law_folded_block_adds_paragraph(seq![line], 0, none, rest);
            assert(seq![line] + none + rest =~= only);
            let first = seq![trimmed_start(line)];
            law_joined_in_parts(first, rest.map_values(trim), seq![' ']);
            assert(only.map_values(trim) =~= first + rest.map_values(trim));
        } else {
            assert(only =~= seq![line]);
            assert(only.map_values(trim) =~= seq![trimmed_start(line)]);
        }
        assert(parts[0] == joined(only.map_values(trim), seq![' ']));
    } else {
        let earlier = paragraphs.drop_last();
        let last = paragraphs.last();
        assert forall|k: int| 0 <= k < earlier.len() implies (#[trigger] earlier[k]).len() > 0 by {
            assert(earlier[k] == paragraphs[k]);
        }
        assert forall|k: int, i: int|
            0 <= k < earlier.len() && 0 <= i < earlier[k].len() implies !is_blank(
            #[trigger] earlier[k][i],
        ) && indent(earlier[k][i]) <= indent(earlier[0][0]) && earlier[k][i].last() != '\n' by {
            assert(earlier[k][i] == paragraphs[k][i]);
        }
        law_folded_block_is_paragraphs(earlier);
        lemma_laid_out(earlier);
        let lines = laid_out(earlier);
        let before_last = earlier.last();
        assert(before_last == paragraphs[paragraphs.len() - 2]);
        assert(before_last.last() == paragraphs[paragraphs.len() - 2][before_last.len() - 1]);
        assert(!is_blank(paragraphs[0][0]));
        let gap: Seq<Seq<char>> = seq![seq![]];
        assert(last == paragraphs[paragraphs.len() - 1]);
        assert forall|i: int| 0 <= i < last.len() implies !is_blank(#[trigger] last[i]) && indent(
            last[i],
        ) <= indent(lines[0]) && last[i].last() != '\n' by {
            assert(last[i] == paragraphs[paragraphs.len() - 1][i]);
        }
        law_folded_block_adds_paragraph(lines, 0, gap, last);
        assert(parts.drop_last() =~= earlier.map_values(fold));
        assert(parts.last() == joined(last.map_values(trim), seq![' ']));
    }
}

/// The indentation of a block can be cut off if and only if of every line that is indented as far
/// as the first one a part is left without as many bytes.
pub proof fn law_clean_cuts_leave_parts(lines: Seq<Seq<char>>, first: int)
    requires
        0 <= first < lines.len(),
        forall|i: int| 0 <= i < first ==> is_blank(#[trigger] lines[i]),
        !is_blank(lines[first]),
    ensures
        cuts_cleanly(lines) <==> forall|i: int|
            0 <= i < lines.len() && !is_blank(#[trigger] lines[i]) && indent(lines[i]) >= indent(
                lines[first],
            ) ==> exists|own: Seq<char>| #[trigger] is_cut(lines[i], indent(lines[first]), own),
{
    let base = indent(lines[first]);
    lemma_first_content_is(lines, first);
    assert forall|line: Seq<char>| #[trigger] cuts_at(line, base) implies exists|own: Seq<char>|
     #[trigger]
        is_cut(line, base, own) by {
        let k = choose|k: int| 0 <= k <= line.len() && #[trigger] byte_len(line.take(k)) == base;
        assert(line =~= line.take(k) + line.skip(k));
        assert(is_cut(line, base, line.skip(k)));
    }
    assert forall|line: Seq<char>, own: Seq<char>| #[trigger]
        is_cut(line, base, own) implies cuts_at(line, base) by {
        let start = choose|start: Seq<char>| line == #[trigger] (start + own) && byte_len(start)
            == base;
        law_bytes_are_cut(start, own);
    }
}

/// In a block of blank lines there is nothing to cut off.
pub proof fn law_blank_blocks_are_clean(lines: Seq<Seq<char>>)
    requires
        forall|i: int| 0 <= i < lines.len() ==> is_blank(#[trigger] lines[i]),
    ensures
        cuts_cleanly(lines),
{
    lemma_first_content(lines);
}

} // verus!
