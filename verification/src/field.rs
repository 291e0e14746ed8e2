//! The documentation of a field: a description, and the annotations in its metadata section.

use vstd::prelude::*;

use crate::annotation::{annotation, annotation_cuts, annotation_cuts_cleanly, extract_annotation};
use crate::constant::{constant_references, find_constant_references};
use crate::error::ExtractError;
use crate::names::{name_views, NameSet};
use crate::text::{
    begins_with, find, first_at, is_blank, is_first_at, is_trim, lemma_first_at, lemma_trimmed,
    lines, lines_of, occurs, occurs_at, same, starts_with, trim, trimmed, view_of, views,
};

verus! {

/// The documentation of a field.
#[derive(Debug)]
pub struct FieldDoc {
    pub name: String,
    pub description: String,
    pub default_value: Option<String>,
    pub notes: Option<Vec<String>>,
    pub deprecated: Option<String>,
    pub toml_example: Option<String>,
    pub required: Option<bool>,
    pub units: Option<String>,
}

/// What the documentation of a field says.
pub struct FieldModel {
    pub name: Seq<char>,
    pub description: Seq<char>,
    pub default_value: Option<Seq<char>>,
    pub notes: Option<Seq<Seq<char>>>,
    pub deprecated: Option<Seq<char>>,
    pub toml_example: Option<Seq<char>>,
    pub required: Option<bool>,
    pub units: Option<Seq<char>>,
}

impl View for FieldDoc {
    type V = FieldModel;

    open spec fn view(&self) -> FieldModel {
        FieldModel {
            name: self.name@,
            description: self.description@,
            default_value: view_of(self.default_value),
            notes: match self.notes {
                Some(notes) => Some(name_views(notes@)),
                None => None,
            },
            deprecated: view_of(self.deprecated),
            toml_example: view_of(self.toml_example),
            required: self.required,
            units: view_of(self.units),
        }
    }
}

/// What separates the description from the metadata section, and that from anything else.
pub open spec fn separator() -> Seq<char> {
    seq!['-', '-', '-']
}

/// The part of `doc` before the first separator.
pub open spec fn before_separator(doc: Seq<char>) -> Seq<char> {
    if occurs(doc, separator()) {
        doc.take(first_at(doc, separator()))
    } else {
        doc
    }
}

/// The metadata section: what stands behind the first separator, up to the next.
pub open spec fn metadata_of(doc: Seq<char>) -> Option<Seq<char>> {
    if occurs(doc, separator()) {
        Some(before_separator(doc.skip(first_at(doc, separator()) + 3)))
    } else {
        None
    }
}

/// What the annotation `name` says in the metadata section of `doc`.
pub open spec fn said(doc: Seq<char>, name: Seq<char>) -> Option<Seq<char>> {
    match metadata_of(doc) {
        Some(metadata) => annotation(metadata, name),
        None => None,
    }
}

/// Whether a trimmed line begins a note.
pub open spec fn is_bullet(line: Seq<char>) -> bool {
    begins_with(line, seq!['-', ' ']) || begins_with(line, seq!['*', ' '])
}

/// The notes, once one more line is read: a bullet begins a note, any other line that is not blank
/// goes on with the last note, if there is one.
pub open spec fn with_line(notes: Seq<Seq<char>>, line: Seq<char>) -> Seq<Seq<char>> {
    let content = trimmed(line);
    if content.len() == 0 {
        notes
    } else if is_bullet(content) {
        notes.push(trimmed(content.skip(2)))
    } else if notes.len() > 0 {
        notes.drop_last().push(notes.last() + seq![' '] + content)
    } else {
        notes
    }
}

/// The notes in these lines.
pub open spec fn notes_in(lines: Seq<Seq<char>>) -> Seq<Seq<char>>
    decreases lines.len(),
{
    if lines.len() == 0 {
        seq![]
    } else {
        with_line(notes_in(lines.drop_last()), lines.last())
    }
}

/// The notes that an annotation lists, unless it lists none.
pub open spec fn notes_of(text: Option<Seq<char>>) -> Option<Seq<Seq<char>>> {
    match text {
        Some(text) => if notes_in(lines_of(text)).len() > 0 {
            Some(notes_in(lines_of(text)))
        } else {
            None
        },
        None => None,
    }
}

/// Whether an annotation says `true`.
pub open spec fn truth_of(text: Option<Seq<char>>) -> Option<bool> {
    match text {
        Some(text) => Some(trimmed(text) == "true"@),
        None => None,
    }
}

/// What to warn of where the annotation `required` of the field `name` says `text`: anything but
/// `true` and `false`, unless it is blank.
pub open spec fn required_warning_of(text: Seq<char>, name: Seq<char>) -> Option<Seq<char>> {
    let content = trimmed(text);
    if content.len() == 0 || content == "true"@ || content == "false"@ {
        None
    } else {
        Some(
            "Warning: Invalid @required value '"@ + content + "' for field '"@ + name
                + "', defaulting to false"@,
        )
    }
}

/// What to warn of in `doc`, the documentation of the field `name`.
pub open spec fn field_warning_of(doc: Seq<char>, name: Seq<char>) -> Option<Seq<char>> {
    match said(doc, "required"@) {
        Some(text) => required_warning_of(text, name),
        None => None,
    }
}

/// What `doc`, the documentation of the field `name`, says.
pub open spec fn field_model(doc: Seq<char>, name: Seq<char>) -> FieldModel {
    FieldModel {
        name,
        description: trimmed(before_separator(doc)),
        default_value: said(doc, "default"@),
        notes: notes_of(said(doc, "notes"@)),
        deprecated: said(doc, "deprecated"@),
        toml_example: said(doc, "toml_example"@),
        required: truth_of(said(doc, "required"@)),
        units: said(doc, "units"@),
    }
}

/// The constants that a text refers to, where there is a text.
pub open spec fn references_in(text: Option<Seq<char>>) -> Set<Seq<char>> {
    match text {
        Some(text) => constant_references(text),
        None => Set::empty(),
    }
}

/// The constants that `doc` refers to: in the description, and in every annotation but `required`.
pub open spec fn field_constants(doc: Seq<char>) -> Set<Seq<char>> {
    constant_references(trimmed(before_separator(doc))).union(
        references_in(said(doc, "default"@)),
    ).union(references_in(said(doc, "notes"@))).union(
        references_in(said(doc, "deprecated"@)),
    ).union(references_in(said(doc, "toml_example"@))).union(references_in(said(doc, "units"@)))
}

/// Whether the indentation of every block in the metadata section can be cut off.
pub open spec fn field_cuts_cleanly(doc: Seq<char>) -> bool {
    match metadata_of(doc) {
        Some(metadata) => {
            &&& annotation_cuts_cleanly(metadata, "default"@)
            &&& annotation_cuts_cleanly(metadata, "notes"@)
            &&& annotation_cuts_cleanly(metadata, "deprecated"@)
            &&& annotation_cuts_cleanly(metadata, "toml_example"@)
            &&& annotation_cuts_cleanly(metadata, "required"@)
            &&& annotation_cuts_cleanly(metadata, "units"@)
        },
        None => true,
    }
}

/// A bullet of a trimmed line has something behind it.
proof fn lemma_bullet(content: Seq<char>)
    requires
        is_trim(content),
        is_bullet(content),
    ensures
        is_trim(trimmed(content.skip(2))),
{
    assert(content[1] == ' ') by {
        if begins_with(content, seq!['-', ' ']) {
            assert(content.subrange(0, 2)[1] == ' ');
        } else {
            assert(content.subrange(0, 2)[1] == ' ');
        }
    }
    assert(content.skip(2).last() == content.last());
    assert(!is_blank(content.skip(2)));
    lemma_trimmed(content.skip(2));
}

/// Reads the notes that an annotation lists.
fn read_notes(text: &str) -> (notes: Vec<String>)
    ensures
        name_views(notes@) == notes_in(lines_of(text@)),
{
    let all_lines = lines(text);
    let ghost all = lines_of(text@);
    let mut notes: Vec<String> = Vec::new();
    let mut current: String = String::new();
    let mut in_note: bool = false;
    let mut i: usize = 0;
    proof {
        assert(all.take(0).len() == 0);
        assert(name_views(notes@) =~= seq![]);
        reveal_strlit("- ");
        reveal_strlit("* ");
        reveal_strlit(" ");
        assert("- "@ =~= seq!['-', ' ']);
        assert("* "@ =~= seq!['*', ' ']);
        assert(" "@ =~= seq![' ']);
    }
    while i < all_lines.len()
        invariant
            i <= all_lines.len(),
            all == views(all_lines@),
            "- "@ == seq!['-', ' '],
            "* "@ == seq!['*', ' '],
            " "@ == seq![' '],
            notes_in(all.take(i as int)) == (if in_note {
                name_views(notes@).push(current@)
            } else {
                name_views(notes@)
            }),
            !in_note ==> notes@.len() == 0,
            in_note ==> is_trim(current@),
        decreases all_lines.len() - i,
    {
        let line = all_lines[i];
        let content = trim(line);
        let ghost earlier = notes_in(all.take(i as int));
        let ghost begun = current@;
        let ghost finished = notes@;
        proof {
            assert(all[i as int] == line@);
            assert(all.take(i + 1).drop_last() =~= all.take(i as int));
            assert(all.take(i + 1).last() == line@);
            lemma_trimmed(line@);
        }
        if !content.is_empty() {
            if starts_with(content, "- ") || starts_with(content, "* ") {
                proof {
                    lemma_bullet(content@);
                }
                if in_note {
                    notes.push(current);
                    proof {
                        assert(name_views(notes@) =~= name_views(finished).push(begun));
                    }
                }
                current = trim(content.substring_char(2, content.unicode_len())).to_owned();
                in_note = true;
                proof {
                    assert(content@.subrange(2, content@.len() as int) =~= content@.skip(2));
                    assert(name_views(notes@) =~= earlier);
                }
            } else if in_note {
                current.append(" ");
                current.append(content);
                proof {
                    assert(earlier.drop_last() =~= name_views(notes@));
                    assert(earlier.last() == begun);
                    assert(current@[0] == begun[0]);
                    assert(current@.last() == content@.last());
                }
            }
        }
        i = i + 1;
    }
    proof {
        assert(all.take(i as int) =~= all);
    }
    if in_note {
        let ghost finished = notes@;
        let ghost begun = current@;
        notes.push(current);
        proof {
            assert(name_views(notes@) =~= name_views(finished).push(begun));
        }
    }
    notes
}

/// The part of `doc` before the first separator, and the part behind it.
fn split_doc<'a>(doc: &'a str) -> (parts: (&'a str, Option<&'a str>))
    ensures
        parts.0@ == before_separator(doc@),
        match parts.1 {
            Some(rest) => occurs(doc@, separator()) && rest@ == doc@.skip(
                first_at(doc@, separator()) + 3,
            ),
            None => !occurs(doc@, separator()),
        },
{
    proof {
        reveal_strlit("---");
        assert("---"@ =~= separator());
    }
    match find(doc, "---") {
        Some(at) => {
            let total: usize = doc.unicode_len();
            proof {
                assert(doc@.subrange(0, at as int) =~= doc@.take(at as int));
                assert(doc@.subrange(at + 3, total as int) =~= doc@.skip(at + 3));
            }
            (doc.substring_char(0, at), Some(doc.substring_char(at + 3, total)))
        },
        None => (doc, None),
    }
}

/// Tells whether the indentation of every block in the metadata section can be cut off.
pub fn field_cuts(doc_text: &str) -> (yes: bool)
    ensures
        yes == field_cuts_cleanly(doc_text@),
{
    match split_doc(doc_text).1 {
        Some(rest) => {
            let metadata = split_doc(rest).0;
            annotation_cuts(metadata, "default") && annotation_cuts(metadata, "notes")
                && annotation_cuts(metadata, "deprecated") && annotation_cuts(
                metadata,
                "toml_example",
            ) && annotation_cuts(metadata, "required") && annotation_cuts(metadata, "units")
        },
        None => true,
    }
}

/// Tells what to warn of where the annotation `required` of the field `field_name` says `text`.
pub fn required_warning(text: &str, field_name: &str) -> (warning: Option<String>)
    ensures
        view_of(warning) == required_warning_of(text@, field_name@),
{
    let content = trim(text);
    if content.is_empty() || same(content, "true") || same(content, "false") {
        return None;
    }
    let mut warning: String = "Warning: Invalid @required value '".to_owned();
    warning.append(content);
    warning.append("' for field '");
    warning.append(field_name);
    warning.append("', defaulting to false");
    Some(warning)
}

/// Tells what to warn of in the documentation of the field `field_name`.
pub fn field_warning(doc_text: &str, field_name: &str) -> (warning: Option<String>)
    requires
        field_cuts_cleanly(doc_text@),
    ensures
        view_of(warning) == field_warning_of(doc_text@, field_name@),
{
    if let Some(rest) = split_doc(doc_text).1 {
        if let Some(text) = extract_annotation(split_doc(rest).0, "required") {
            return required_warning(text.as_str(), field_name);
        }
    }
    None
}

/// Adds the constants that a text refers to.
fn add_references(constants: &mut NameSet, text: &Option<String>)
    requires
        old(constants).wf(),
    ensures
        final(constants).wf(),
        final(constants)@ == old(constants)@.union(references_in(view_of(*text))),
{
    match text {
        Some(text) => {
            constants.extend(find_constant_references(text.as_str()));
        },
        None => {
            proof {
                assert(constants@.union(Set::empty()) =~= constants@);
            }
        },
    }
}

/// Reads the documentation of a field, and the constants that it refers to.
pub fn parse_field_documentation(doc_text: &str, field_name: &str) -> (result: Result<
    (FieldDoc, NameSet),
    ExtractError,
>)
    requires
        field_cuts_cleanly(doc_text@),
    ensures
        match result {
            Ok((doc, constants)) => {
                &&& doc@ == field_model(doc_text@, field_name@)
                &&& constants.wf()
                &&& constants@ == field_constants(doc_text@)
            },
            Err(_) => false,
        },
{
    let (start, rest) = split_doc(doc_text);
    let description: String = trim(start).to_owned();
    let mut constants = find_constant_references(description.as_str());
    let mut field_doc = FieldDoc {
        name: field_name.to_owned(),
        description,
        default_value: None,
        notes: None,
        deprecated: None,
        toml_example: None,
        required: None,
        units: None,
    };
    match rest {
        Some(rest) => {
            let metadata = split_doc(rest).0;

            field_doc.default_value = extract_annotation(metadata, "default");
            add_references(&mut constants, &field_doc.default_value);

            let notes_text = extract_annotation(metadata, "notes");
            add_references(&mut constants, &notes_text);
            if let Some(notes_text) = &notes_text {
                let notes = read_notes(notes_text.as_str());
                if notes.len() > 0 {
                    field_doc.notes = Some(notes);
                }
            }

            field_doc.deprecated = extract_annotation(metadata, "deprecated");
            add_references(&mut constants, &field_doc.deprecated);

            field_doc.toml_example = extract_annotation(metadata, "toml_example");
            add_references(&mut constants, &field_doc.toml_example);

            if let Some(required) = extract_annotation(metadata, "required") {
                field_doc.required = Some(same(trim(required.as_str()), "true"));
            }

            field_doc.units = extract_annotation(metadata, "units");
            add_references(&mut constants, &field_doc.units);
        },
        None => {
            proof {
                assert(constants@ =~= field_constants(doc_text@));
            }
        },
    }
    Ok((field_doc, constants))
}

/// The description stands before the first separator, and the metadata section behind it.
pub proof fn law_doc_splits_at_separator(start: Seq<char>, metadata: Seq<char>)
    requires
        !occurs(start + seq!['-', '-'], separator()),
        !occurs(metadata, separator()),
    ensures
        before_separator(start + separator() + metadata) == start,
        metadata_of(start + separator() + metadata) == Some(metadata),
{
    let doc = start + separator() + metadata;
    let n = start.len() as int;
    assert(doc.subrange(n, n + 3) =~= separator());
    assert forall|i: int| 0 <= i < n implies !occurs_at(doc, separator(), i) by {
        let shorter = start + seq!['-', '-'];
        if occurs_at(doc, separator(), i) {
            assert(shorter.subrange(i, i + 3) =~= doc.subrange(i, i + 3));
            assert(occurs_at(shorter, separator(), i));
        }
    }
    assert(is_first_at(doc, separator(), n));
    lemma_first_at(doc, separator(), n);
    assert(occurs_at(doc, separator(), n));
    assert(doc.take(n) =~= start);
    assert(doc.skip(n + 3) =~= metadata);
}

/// Without a separator the documentation is all description.
pub proof fn law_no_separator_no_annotation(doc: Seq<char>, name: Seq<char>)
    requires
        !occurs(doc, separator()),
    ensures
        field_model(doc, name) == (FieldModel {
            name,
            description: trimmed(doc),
            default_value: None,
            notes: None,
            deprecated: None,
            toml_example: None,
            required: None,
            units: None,
        }),
        field_constants(doc) == constant_references(trimmed(doc)),
{
    assert(field_constants(doc) =~= constant_references(trimmed(doc)));
}

/// Notes begin and end with a character that is not white, and where there is a list of notes, it
/// is not empty.
pub proof fn law_notes_are_trimmed(text: Option<Seq<char>>)
    ensures
        notes_of(text) matches Some(notes) ==> notes.len() > 0 && forall|i: int|
            0 <= i < notes.len() ==> is_trim(#[trigger] notes[i]),
{
    if let Some(text) = text {
        lemma_notes_are_trimmed(lines_of(text));
    }
}

proof fn lemma_notes_are_trimmed(lines: Seq<Seq<char>>)
    ensures
        forall|i: int| 0 <= i < notes_in(lines).len() ==> is_trim(#[trigger] notes_in(lines)[i]),
    decreases lines.len(),
{
    if lines.len() > 0 {
        let earlier = notes_in(lines.drop_last());
        let now = notes_in(lines);
        let content = trimmed(lines.last());
        lemma_notes_are_trimmed(lines.drop_last());
        lemma_trimmed(lines.last());
        if is_bullet(content) && content.len() > 0 {
            lemma_bullet(content);
        }
        assert forall|i: int| 0 <= i < now.len() implies is_trim(#[trigger] now[i]) by {
            if i < earlier.len() - 1 || now.len() != earlier.len() && i < earlier.len() {
                assert(now[i] == earlier[i]);
            } else if content.len() > 0 && !is_bullet(content) && earlier.len() > 0 {
                let last = earlier.last();
                assert(is_trim(earlier[earlier.len() - 1]));
                assert(now[i][0] == last[0]);
                assert(now[i].last() == content.last());
            } else if i < earlier.len() {
                assert(now[i] == earlier[i]);
            }
        }
    }
}

} // verus!
