//! Laws on annotations.

use vstd::prelude::*;

use crate::annotation::{
    annotation, annotation_cuts_cleanly, annotation_in, block_lines, ends_block,
    lemma_block_len_is, lemma_line_with_is, located, marker, plain_line, plain_lines,
};
use crate::block::{block_indent, cuts_cleanly, folded_block, literal_block};
use crate::laws::block::{is_cut, lemma_cut, lemma_first_content_is};
use crate::laws::text::law_first_place_is_first;
use crate::text::{
    begins_with, indent, is_blank, joined, lemma_trimmed, lines_of, occurs, occurs_at,
    trimmed, trimmed_start,
};

verus! {

/// Whether a line goes on with the block of an annotation that is indented by `level`: blank lines
/// do, and lines that are indented further. Of those that are indented as far, all do that are no
/// annotations: lines that begin with `@` and hold a colon.
pub open spec fn goes_on(line: Seq<char>, level: nat) -> bool {
    ||| is_blank(line)
    ||| indent(line) > level
    ||| indent(line) == level && !(trimmed(line)[0] == '@' && trimmed(line).contains(':'))
}

proof fn lemma_one_char(text: Seq<char>, c: char)
    ensures
        begins_with(text, seq![c]) <==> text.len() > 0 && text[0] == c,
        occurs(text, seq![c]) <==> text.contains(c),
{
    if begins_with(text, seq![c]) {
        assert(text.subrange(0, 1)[0] == text[0]);
    }
    if text.len() > 0 && text[0] == c {
        assert(text.subrange(0, 1) =~= seq![c]);
    }
    if occurs(text, seq![c]) {
        let i = choose|i: int| occurs_at(text, seq![c], i);
        assert(text.subrange(i, i + 1)[0] == text[i]);
    }
    if text.contains(c) {
        let i = choose|i: int| 0 <= i < text.len() && text[i] == c;
        assert(text.subrange(i, i + 1) =~= seq![c]);
        assert(occurs_at(text, seq![c], i));
    }
}

proof fn lemma_goes_on(line: Seq<char>, level: nat)
    ensures
        goes_on(line, level) <==> !ends_block(line, level),
{
    lemma_one_char(trimmed(line), '@');
    lemma_one_char(trimmed(line), ':');
    lemma_trimmed(line);
}

/// Whether these lines hold the annotation `name`: lines that do not hold its marker, a line with
/// the marker behind `start` and `text` behind it, the lines of its block, and from a line on that
/// does not go on with the block, anything.
pub open spec fn is_annotation(
    earlier: Seq<Seq<char>>,
    start: Seq<char>,
    name: Seq<char>,
    text: Seq<char>,
    block: Seq<Seq<char>>,
    later: Seq<Seq<char>>,
) -> bool {
    let mark = seq!['@'] + name + seq![':'];
    let line = start + mark + text;
    &&& forall|i: int| 0 <= i < earlier.len() ==> !occurs(#[trigger] earlier[i], mark)
    &&& forall|j: int|
        0 <= j < start.len() ==> #[trigger] line.subrange(j, j + mark.len()) != mark
    &&& forall|i: int| 0 <= i < block.len() ==> goes_on(#[trigger] block[i], indent(line))
    &&& later.len() > 0 ==> !goes_on(later[0], indent(line))
}

/// The lines that hold an annotation.
pub open spec fn annotated(
    earlier: Seq<Seq<char>>,
    start: Seq<char>,
    name: Seq<char>,
    text: Seq<char>,
    block: Seq<Seq<char>>,
    later: Seq<Seq<char>>,
) -> Seq<Seq<char>> {
    earlier + seq![start + (seq!['@'] + name + seq![':']) + text] + block + later
}

proof fn lemma_located(
    earlier: Seq<Seq<char>>,
    start: Seq<char>,
    name: Seq<char>,
    text: Seq<char>,
    block: Seq<Seq<char>>,
    later: Seq<Seq<char>>,
)
    requires
        is_annotation(earlier, start, name, text, block, later),
    ensures
        located(annotated(earlier, start, name, text, block, later), name) == Some(
            (trimmed_start(text), block),
        ),
{
    let mark = seq!['@'] + name + seq![':'];
    let line = start + mark + text;
    let lines = annotated(earlier, start, name, text, block, later);
    let n = earlier.len() as int;
    let m = start.len() as int;
    assert(mark == marker(name));
    assert(line.subrange(m, m + mark.len()) =~= mark);
    law_first_place_is_first(line, mark, m);
    assert(occurs_at(line, mark, m));
    assert forall|i: int| 0 <= i < n implies !occurs(#[trigger] lines[i], mark) by {
        assert(lines[i] == earlier[i]);
    }
    assert(lines[n] == line);
    lemma_line_with_is(lines, mark, n);
    assert(line.skip(m + mark.len()) =~= text);
    let rest = lines.skip(n + 1);
    assert(rest =~= block + later);
    assert forall|i: int| 0 <= i < block.len() implies !ends_block(
        #[trigger] rest[i],
        indent(line),
    ) by {
        assert(rest[i] == block[i]);
        lemma_goes_on(block[i], indent(line));
    }
    if later.len() > 0 {
        assert(rest[block.len() as int] == later[0]);
        lemma_goes_on(later[0], indent(line));
    }
    lemma_block_len_is(rest, indent(line), block.len() as int);
    assert(rest.take(block.len() as int) =~= block);
}

/// An annotation with `|` behind its marker says what its block holds, line by line, whatever
/// stands behind the sign. It says nothing where that is blank.
pub proof fn law_literal_annotation(
    earlier: Seq<Seq<char>>,
    start: Seq<char>,
    name: Seq<char>,
    text: Seq<char>,
    block: Seq<Seq<char>>,
    later: Seq<Seq<char>>,
)
    requires
        is_annotation(earlier, start, name, text, block, later),
        trimmed_start(text).len() > 0 && trimmed_start(text)[0] == '|',
    ensures
        annotation_in(annotated(earlier, start, name, text, block, later), name) == (if is_blank(
            literal_block(block),
        ) {
            None
        } else {
            Some(literal_block(block))
        }),
{
    lemma_located(earlier, start, name, text, block, later);
    lemma_one_char(trimmed_start(text), '|');
}

/// An annotation with `>` behind its marker says what its block holds, folded, whatever stands
/// behind the sign. It says nothing where that is blank.
pub proof fn law_folded_annotation(
    earlier: Seq<Seq<char>>,
    start: Seq<char>,
    name: Seq<char>,
    text: Seq<char>,
    block: Seq<Seq<char>>,
    later: Seq<Seq<char>>,
)
    requires
        is_annotation(earlier, start, name, text, block, later),
        trimmed_start(text).len() > 0 && trimmed_start(text)[0] == '>',
    ensures
        annotation_in(annotated(earlier, start, name, text, block, later), name) == (if is_blank(
            folded_block(block),
        ) {
            None
        } else {
            Some(folded_block(block))
        }),
{
    lemma_located(earlier, start, name, text, block, later);
    lemma_one_char(trimmed_start(text), '|');
    lemma_one_char(trimmed_start(text), '>');
}

/// Whether `kept` are the indices of the lines that are not blank, in ascending order.
pub open spec fn are_contents(lines: Seq<Seq<char>>, kept: Seq<int>) -> bool {
    &&& forall|a: int, b: int| 0 <= a < b < kept.len() ==> #[trigger] kept[a] < #[trigger] kept[b]
    &&& forall|a: int|
        0 <= a < kept.len() ==> 0 <= #[trigger] kept[a] < lines.len() && !is_blank(lines[kept[a]])
    &&& forall|i: int|
        0 <= i < lines.len() && !is_blank(#[trigger] lines[i]) ==> kept.contains(i)
}

proof fn lemma_plain_lines(
    block: Seq<Seq<char>>,
    kept: Seq<int>,
    out: Seq<Seq<char>>,
    base: nat,
)
    requires
        are_contents(block, kept),
        out.len() == kept.len(),
        forall|a: int|
            0 <= a < kept.len() ==> #[trigger] out[a] == plain_line(block[kept[a]], base),
    ensures
        plain_lines(block, base) == out,
    decreases block.len(),
{
    if block.len() == 0 {
        if kept.len() > 0 {
            assert(0 <= kept[0] < block.len());
        }
        assert(out =~= seq![]);
    } else {
        let shorter = block.drop_last();
        let n = block.len() - 1;
        if is_blank(block[n]) {
            assert(are_contents(shorter, kept)) by {
                assert forall|a: int| 0 <= a < kept.len() implies 0 <= #[trigger] kept[a]
                    < shorter.len() && !is_blank(shorter[kept[a]]) by {
                    assert(kept[a] != n);
                }
                assert forall|i: int| 0 <= i < shorter.len() && !is_blank(#[trigger] shorter[i])
                    implies kept.contains(i) by {
                    assert(shorter[i] == block[i]);
                }
            }
            assert forall|a: int| 0 <= a < kept.len() implies #[trigger] out[a] == plain_line(
                shorter[kept[a]],
                base,
            ) by {
                assert(0 <= kept[a] < shorter.len());
            }
            lemma_plain_lines(shorter, kept, out, base);
        } else {
            assert(kept.contains(n));
            let k = choose|k: int| 0 <= k < kept.len() && kept[k] == n;
            if k < kept.len() - 1 {
                assert(kept[k] < kept[kept.len() - 1]);
            }
            let fewer = kept.drop_last();
            assert(are_contents(shorter, fewer)) by {
                assert forall|a: int| 0 <= a < fewer.len() implies 0 <= #[trigger] fewer[a]
                    < shorter.len() && !is_blank(shorter[fewer[a]]) by {
                    assert(fewer[a] == kept[a]);
                    assert(kept[a] < kept[kept.len() - 1]);
                }
                assert forall|i: int| 0 <= i < shorter.len() && !is_blank(#[trigger] shorter[i])
                    implies fewer.contains(i) by {
                    assert(shorter[i] == block[i]);
                    let j = choose|j: int| 0 <= j < kept.len() && kept[j] == i;
                    assert(fewer[j] == i);
                }
            }
            assert forall|a: int| 0 <= a < fewer.len() implies #[trigger] out.drop_last()[a]
                == plain_line(shorter[fewer[a]], base) by {
                assert(fewer[a] == kept[a]);
                assert(kept[a] < kept[kept.len() - 1]);
                assert(out[a] == plain_line(block[kept[a]], base));
            }
            lemma_plain_lines(shorter, fewer, out.drop_last(), base);
            assert(out[out.len() - 1] == plain_line(block[n], base));
            assert(out.drop_last().push(out.last()) =~= out);
        }
    }
}

/// An annotation with no sign of a block behind its marker says the text behind the marker and all
/// lines of its block that are not blank, each on a line of its own, and trimmed as a whole. Of the
/// lines of the block the indentation of the first one is cut off, or all white space at either end
/// where a line is indented less. It says nothing where all of that is blank.
pub proof fn law_plain_annotation(
    earlier: Seq<Seq<char>>,
    start: Seq<char>,
    name: Seq<char>,
    text: Seq<char>,
    block: Seq<Seq<char>>,
    later: Seq<Seq<char>>,
    kept: Seq<int>,
    out: Seq<Seq<char>>,
)
    requires
        is_annotation(earlier, start, name, text, block, later),
        trimmed_start(text).len() > 0 ==> trimmed_start(text)[0] != '|' && trimmed_start(text)[0]
            != '>',
        are_contents(block, kept),
        out.len() == kept.len(),
        forall|a: int|
            0 <= a < kept.len() ==> if indent(block[kept[a]]) >= indent(block[kept[0]]) {
                is_cut(block[kept[a]], indent(block[kept[0]]), #[trigger] out[a])
            } else {
                out[a] == trimmed(block[kept[a]])
            },
    ensures
        ({
            let behind = trimmed_start(text);
            let whole = joined(
                (if behind.len() > 0 {
                    seq![behind]
                } else {
                    seq![]
                }) + out,
                seq!['\n'],
            );
            annotation_in(annotated(earlier, start, name, text, block, later), name)
                == if is_blank(whole) {
                None
            } else {
                Some(trimmed(whole))
            }
        }),
{
    lemma_located(earlier, start, name, text, block, later);
    let behind = trimmed_start(text);
    lemma_one_char(behind, '|');
    lemma_one_char(behind, '>');
    let base = block_indent(block);
    if kept.len() > 0 {
        let first = kept[0];
        assert forall|i: int| 0 <= i < first implies is_blank(#[trigger] block[i]) by {
            if !is_blank(block[i]) {
                let j = choose|j: int| 0 <= j < kept.len() && kept[j] == i;
                if j > 0 {
                    assert(kept[0] < kept[j]);
                }
            }
        }
        assert(!is_blank(block[first]));
        lemma_first_content_is(block, first);
        assert forall|a: int| 0 <= a < kept.len() implies #[trigger] out[a] == plain_line(
            block[kept[a]],
            base,
        ) by {
            if indent(block[kept[a]]) >= base {
                lemma_cut(block[kept[a]], base, out[a]);
            }
        }
    }
    lemma_plain_lines(block, kept, out, base);
    let whole = joined(
        (if behind.len() > 0 {
            seq![behind]
        } else {
            seq![]
        }) + out,
        seq!['\n'],
    );
    lemma_trimmed(whole);
    if !is_blank(whole) {
        assert(!is_blank(trimmed(whole)));
    } else {
        assert(is_blank(trimmed(whole)));
    }
}

/// An annotation whose marker stands in no line says nothing.
pub proof fn law_missing_annotation(lines: Seq<Seq<char>>, name: Seq<char>)
    requires
        forall|i: int|
            0 <= i < lines.len() ==> !occurs(
                #[trigger] lines[i],
                seq!['@'] + name + seq![':'],
            ),
    ensures
        annotation_in(lines, name) is None,
{
    lemma_line_with_is(lines, marker(name), lines.len() as int);
}

/// What an annotation says in a text is what it says in the lines of the text.
pub proof fn law_annotation_is_read_by_lines(metadata: Seq<char>, name: Seq<char>)
    ensures
        annotation(metadata, name) == annotation_in(lines_of(metadata), name),
{
}

/// The lines that belong to an annotation are those up to the first one that does not go on with
/// its block.
pub proof fn law_block_is_what_goes_on(
    block: Seq<Seq<char>>,
    later: Seq<Seq<char>>,
    level: nat,
)
    requires
        forall|i: int| 0 <= i < block.len() ==> goes_on(#[trigger] block[i], level),
        later.len() > 0 ==> !goes_on(later[0], level),
    ensures
        block_lines(block + later, level) == block,
{
    let lines = block + later;
    assert forall|i: int| 0 <= i < block.len() implies !ends_block(#[trigger] lines[i], level) by {
        assert(lines[i] == block[i]);
        lemma_goes_on(block[i], level);
    }
    if later.len() > 0 {
        assert(lines[block.len() as int] == later[0]);
        lemma_goes_on(later[0], level);
    }
    lemma_block_len_is(lines, level, block.len() as int);
    assert(lines.take(block.len() as int) =~= block);
}

/// The indentation of an annotation can be cut off if and only if that of its block can. Where the
/// annotation is missing there is nothing to cut off.
pub proof fn law_clean_annotation_has_clean_block(
    metadata: Seq<char>,
    earlier: Seq<Seq<char>>,
    start: Seq<char>,
    name: Seq<char>,
    text: Seq<char>,
    block: Seq<Seq<char>>,
    later: Seq<Seq<char>>,
)
    ensures
        is_annotation(earlier, start, name, text, block, later) && lines_of(metadata) == annotated(
            earlier,
            start,
            name,
            text,
            block,
            later,
        ) ==> annotation_cuts_cleanly(metadata, name) == cuts_cleanly(block),
        (forall|i: int|
            0 <= i < lines_of(metadata).len() ==> !occurs(
                #[trigger] lines_of(metadata)[i],
                seq!['@'] + name + seq![':'],
            )) ==> annotation_cuts_cleanly(metadata, name),
{
    if is_annotation(earlier, start, name, text, block, later) {
        lemma_located(earlier, start, name, text, block, later);
    }
    if forall|i: int|
        0 <= i < lines_of(metadata).len() ==> !occurs(
            #[trigger] lines_of(metadata)[i],
            seq!['@'] + name + seq![':'],
        ) {
        lemma_line_with_is(lines_of(metadata), marker(name), lines_of(metadata).len() as int);
    }
}

} // verus!
