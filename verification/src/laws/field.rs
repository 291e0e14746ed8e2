//! Laws on the documentation of fields.

use vstd::prelude::*;

use crate::annotation::{annotation, annotation_cuts_cleanly};
use crate::constant::constant_references;
use crate::field::{
    before_separator, field_constants, field_cuts_cleanly, field_model, field_warning_of,
    is_bullet, metadata_of, notes_in, notes_of, separator, FieldDoc, FieldModel,
};
use crate::laws::text::law_first_place_is_first;
use crate::text::{
    is_blank, lemma_trimmed, lines_of, occurs, occurs_at, trimmed, view_of,
};

verus! {

/// Whether a separator begins at index `i`.
pub open spec fn is_separator_at(text: Seq<char>, i: int) -> bool {
    0 <= i && i + 3 <= text.len() && text[i] == '-' && text[i + 1] == '-' && text[i + 2] == '-'
}

proof fn lemma_separator(text: Seq<char>, i: int)
    ensures
        is_separator_at(text, i) <==> occurs_at(text, separator(), i),
{
    if occurs_at(text, separator(), i) {
        assert(text.subrange(i, i + 3)[0] == text[i]);
        assert(text.subrange(i, i + 3)[1] == text[i + 1]);
        assert(text.subrange(i, i + 3)[2] == text[i + 2]);
    }
    if is_separator_at(text, i) {
        assert(text.subrange(i, i + 3) =~= separator());
    }
}

proof fn lemma_before_separator(start: Seq<char>, rest: Seq<char>)
    requires
        rest.len() == 0 || is_separator_at(rest, 0),
        forall|i: int| 0 <= i < start.len() ==> !#[trigger] is_separator_at(start + rest, i),
    ensures
        before_separator(start + rest) == start,
        rest.len() > 0 ==> metadata_of(start + rest) == Some(before_separator(rest.skip(3))),
        rest.len() == 0 ==> metadata_of(start + rest) is None,
{
    let text = start + rest;
    let n = start.len() as int;
    if rest.len() == 0 {
        assert(text =~= start);
        if occurs(text, separator()) {
            let i = choose|i: int| occurs_at(text, separator(), i);
            lemma_separator(text, i);
            assert(!is_separator_at(text, i));
        }
    } else {
        assert(is_separator_at(text, n)) by {
            assert(text[n] == rest[0] && text[n + 1] == rest[1] && text[n + 2] == rest[2]);
        }
        lemma_separator(text, n);
        assert forall|j: int| 0 <= j < n implies #[trigger] text.subrange(j, j + separator().len())
            != separator() by {
            assert(!is_separator_at(text, j));
            lemma_separator(text, j);
        }
        law_first_place_is_first(text, separator(), n);
        assert(text.take(n) =~= start);
        assert(text.skip(n + 3) =~= rest.skip(3));
    }
}

/// Whether a documentation has this description, this metadata section, and `rest` behind it: the
/// description goes up to the first separator, and the metadata section up to the next, if there is
/// one.
pub open spec fn is_parted(start: Seq<char>, metadata: Seq<char>, rest: Seq<char>) -> bool {
    let behind = metadata + rest;
    let doc = start + (seq!['-', '-', '-'] + behind);
    &&& rest.len() == 0 || is_separator_at(rest, 0)
    &&& forall|i: int| 0 <= i < metadata.len() ==> !#[trigger] is_separator_at(behind, i)
    &&& forall|i: int| 0 <= i < start.len() ==> !#[trigger] is_separator_at(doc, i)
}

proof fn lemma_parted(start: Seq<char>, metadata: Seq<char>, rest: Seq<char>)
    requires
        is_parted(start, metadata, rest),
    ensures
        before_separator(start + (seq!['-', '-', '-'] + (metadata + rest))) == start,
        metadata_of(start + (seq!['-', '-', '-'] + (metadata + rest))) == Some(metadata),
{
    let behind = seq!['-', '-', '-'] + (metadata + rest);
    assert(is_separator_at(behind, 0));
    lemma_before_separator(start, behind);
    assert(behind.skip(3) =~= metadata + rest);
    lemma_before_separator(metadata, rest);
}

/// A field says its name, the trimmed description, and of the metadata section exactly what each
/// annotation says, with all of its lines. Whether it is required is whether that annotation says
/// `true`. What stands behind a second separator does not count.
pub proof fn law_field_says_its_annotations(
    start: Seq<char>,
    metadata: Seq<char>,
    rest: Seq<char>,
    name: Seq<char>,
)
    requires
        is_parted(start, metadata, rest),
    ensures
        ({
            let field = field_model(start + (seq!['-', '-', '-'] + (metadata + rest)), name);
            &&& field.name == name
            &&& field.description == trimmed(start)
            &&& field.default_value == annotation(metadata, "default"@)
            &&& field.notes == notes_of(annotation(metadata, "notes"@))
            &&& field.deprecated == annotation(metadata, "deprecated"@)
            &&& field.toml_example == annotation(metadata, "toml_example"@)
            &&& field.units == annotation(metadata, "units"@)
            &&& field.required == match annotation(metadata, "required"@) {
                Some(text) => Some(trimmed(text) == "true"@),
                None => None,
            }
        }),
{
    lemma_parted(start, metadata, rest);
}

/// Without a separator the documentation of a field is all description, and nothing else is said.
pub proof fn law_field_without_annotations(doc: Seq<char>, name: Seq<char>)
    requires
        forall|i: int| 0 <= i < doc.len() ==> !#[trigger] is_separator_at(doc, i),
    ensures
        field_model(doc, name) == (FieldModel {
            name,
            description: trimmed(doc),
            default_value: None,
            notes: None,
            deprecated: None,
            toml_example: None,
            required: None,
            units: None,
        }),
        field_warning_of(doc, name) is None,
        forall|constant: Seq<char>| #[trigger]
            field_constants(doc).contains(constant) <==> constant_references(trimmed(doc)).contains(
                constant,
            ),
{
    let none: Seq<char> = seq![];
    assert(doc + none =~= doc);
    lemma_before_separator(doc, none);
}

/// Whether a text is there and refers to the constant.
pub open spec fn text_refers(text: Option<Seq<char>>, constant: Seq<char>) -> bool {
    text matches Some(text) && constant_references(text).contains(constant)
}

/// A documentation refers to the constants that its description refers to, or what an annotation
/// says, other than whether the field is required.
pub proof fn law_field_refers_to_constants(
    start: Seq<char>,
    metadata: Seq<char>,
    rest: Seq<char>,
    constant: Seq<char>,
)
    requires
        is_parted(start, metadata, rest),
    ensures
        field_constants(start + (seq!['-', '-', '-'] + (metadata + rest))).contains(constant) <==> {
            ||| text_refers(Some(trimmed(start)), constant)
            ||| text_refers(annotation(metadata, "default"@), constant)
            ||| text_refers(annotation(metadata, "notes"@), constant)
            ||| text_refers(annotation(metadata, "deprecated"@), constant)
            ||| text_refers(annotation(metadata, "toml_example"@), constant)
            ||| text_refers(annotation(metadata, "units"@), constant)
        },
{
    lemma_parted(start, metadata, rest);
}

/// A documentation is warned of where it says whether the field is required, and says neither that
/// it is nor that it is not.
pub proof fn law_field_is_warned_of(
    start: Seq<char>,
    metadata: Seq<char>,
    rest: Seq<char>,
    name: Seq<char>,
)
    requires
        is_parted(start, metadata, rest),
    ensures
        field_warning_of(start + (seq!['-', '-', '-'] + (metadata + rest)), name) == match annotation(
            metadata,
            "required"@,
        ) {
            Some(text) => if is_blank(text) || trimmed(text) == "true"@ || trimmed(text)
                == "false"@ {
                None
            } else {
                Some(
                    "Warning: Invalid @required value '"@ + trimmed(text) + "' for field '"@ + name
                        + "', defaulting to false"@,
                )
            },
            None => None,
        },
{
    lemma_parted(start, metadata, rest);
    if let Some(text) = annotation(metadata, "required"@) {
        lemma_trimmed(text);
    }
}

/// Whether a trimmed line begins a note: with a hyphen or an asterisk, and a space.
pub open spec fn begins_note(content: Seq<char>) -> bool {
    content.len() > 1 && (content[0] == '-' || content[0] == '*') && content[1] == ' '
}

proof fn lemma_begins_note(content: Seq<char>)
    ensures
        begins_note(content) <==> is_bullet(content),
{
    if content.len() > 1 {
        let start = content.subrange(0, 2);
        assert(start[0] == content[0] && start[1] == content[1]);
        assert(start =~= seq![content[0], content[1]]);
        if begins_note(content) {
            assert(start =~= seq!['-', ' '] || start =~= seq!['*', ' ']);
        }
    }
}

/// Every line of a list of notes counts. A line with a bullet is one more note, trimmed and without
/// the bullet. Any other line that is not blank goes on with the last note behind a space, and is
/// passed over before the first. Blank lines are passed over.
pub proof fn law_notes_go_on(text: Seq<char>, longer: Seq<char>, line: Seq<char>)
    requires
        lines_of(longer) == lines_of(text).push(line),
    ensures
        notes_of(None) is None,
        lines_of(text).len() == 0 ==> notes_of(Some(text)) is None,
        ({
            let earlier = notes_of(Some(text));
            let now = notes_of(Some(longer));
            let content = trimmed(line);
            if is_blank(line) {
                now == earlier
            } else if begins_note(content) {
                now == Some(
                    (match earlier {
                        Some(notes) => notes,
                        None => seq![],
                    }).push(trimmed(content.skip(2))),
                )
            } else {
                now == match earlier {
                    Some(notes) => Some(
                        notes.drop_last().push(notes.last() + seq![' '] + content),
                    ),
                    None => None,
                }
            }
        }),
{
    assert(lines_of(longer).drop_last() =~= lines_of(text));
    assert(lines_of(longer).last() == line);
    lemma_trimmed(line);
    lemma_begins_note(trimmed(line));
    let earlier = notes_in(lines_of(text));
    if earlier.len() == 0 {
        assert(earlier =~= seq![]);
    }
}

/// Notes depend on the lines of a text alone.
pub proof fn law_notes_are_read_by_lines(text: Seq<char>, other: Seq<char>)
    requires
        lines_of(text) == lines_of(other),
    ensures
        notes_of(Some(text)) == notes_of(Some(other)),
{
}

/// What the documentation of a field says is what each of its parts says.
pub proof fn law_parts_of_field_are_viewed(doc: FieldDoc)
    ensures
        doc@.name == doc.name@,
        doc@.description == doc.description@,
        doc@.default_value == view_of(doc.default_value),
        doc@.deprecated == view_of(doc.deprecated),
        doc@.toml_example == view_of(doc.toml_example),
        doc@.required == doc.required,
        doc@.units == view_of(doc.units),
        doc.notes is None ==> doc@.notes is None,
        doc.notes matches Some(notes) ==> doc@.notes == Some(
            Seq::new(notes@.len(), |i: int| notes@[i]@),
        ),
{
    if let Some(notes) = doc.notes {
        assert(doc@.notes->0 =~= Seq::new(notes@.len(), |i: int| notes@[i]@));
    }
}

/// The indentation in a documentation can be cut off if and only if that of every annotation of a
/// field can.
pub proof fn law_clean_field_has_clean_annotations(
    start: Seq<char>,
    metadata: Seq<char>,
    rest: Seq<char>,
)
    requires
        is_parted(start, metadata, rest),
    ensures
        field_cuts_cleanly(start + (seq!['-', '-', '-'] + (metadata + rest))) <==> {
            &&& annotation_cuts_cleanly(metadata, "default"@)
            &&& annotation_cuts_cleanly(metadata, "notes"@)
            &&& annotation_cuts_cleanly(metadata, "deprecated"@)
            &&& annotation_cuts_cleanly(metadata, "toml_example"@)
            &&& annotation_cuts_cleanly(metadata, "required"@)
            &&& annotation_cuts_cleanly(metadata, "units"@)
        },
{
    lemma_parted(start, metadata, rest);
}

/// In a documentation without a separator there is nothing to cut off.
pub proof fn law_description_is_clean(doc: Seq<char>)
    requires
        forall|i: int| 0 <= i < doc.len() ==> !#[trigger] is_separator_at(doc, i),
    ensures
        field_cuts_cleanly(doc),
{
    let none: Seq<char> = seq![];
    assert(doc + none =~= doc);
    lemma_before_separator(doc, none);
}

} // verus!
