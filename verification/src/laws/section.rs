//! Laws on sections.

use vstd::prelude::*;

use crate::item::{field_ids, item_of, struct_in_field, Index};
use crate::json::{list_at, object_at, text_at, JsonModel};
use crate::section::{
    find_struct, section_map, section_of, section_structs, sections_of, value_views,
};
use crate::text::occurs;

verus! {

/// A field that is in the index, has a name, is not ignored and stands for a struct stands for a
/// section: a table by its name, in square brackets, or an array of tables, in two, where it stands
/// for a collection.
pub proof fn law_field_gives_section(
    index: Index,
    id: JsonModel,
    item: JsonModel,
    field: Seq<char>,
    name: Seq<char>,
    collection: bool,
)
    requires
        item_of(index, id) == Some(item),
        text_at(item, seq!["name"@]) == Some(field),
        text_at(item, seq!["docs"@]) matches Some(docs) ==> !occurs(docs, "@ignore"@),
        struct_in_field(item, index) == Some((name, collection)),
    ensures
        section_of(index, id) == Some(
            (
                if collection {
                    seq!['[', '['] + field + seq![']', ']']
                } else {
                    seq!['['] + field + seq![']']
                },
                name,
            ),
        ),
{
    reveal_strlit("[");
    reveal_strlit("]");
    reveal_strlit("[[");
    reveal_strlit("]]");
    assert("["@ =~= seq!['['] && "]"@ =~= seq![']']);
    assert("[["@ =~= seq!['[', '['] && "]]"@ =~= seq![']', ']']);
}

/// Any other field stands for no section.
pub proof fn law_field_without_section(index: Index, id: JsonModel)
    requires
        item_of(index, id) matches Some(item) ==> {
            ||| text_at(item, seq!["name"@]) is None
            ||| text_at(item, seq!["docs"@]) matches Some(docs) && occurs(docs, "@ignore"@)
            ||| struct_in_field(item, index) is None
        },
    ensures
        section_of(index, id) is None,
{
}

/// The sections of fields come one field after the other.
pub proof fn law_sections_in_order(index: Index, a: Seq<JsonModel>, b: Seq<JsonModel>)
    ensures
        sections_of(index, a + b) == sections_of(index, a) + sections_of(index, b),
        a.len() == 0 ==> sections_of(index, a).len() == 0,
        a.len() == 1 ==> sections_of(index, a) == match section_of(index, a[0]) {
            Some(section) => seq![section],
            None => seq![],
        },
    decreases b.len(),
{
    if a.len() == 1 {
        assert(a.drop_last().len() == 0);
        reveal_with_fuel(sections_of, 2);
        assert(sections_of(index, a) =~= match section_of(index, a[0]) {
            Some(section) => seq![section],
            None => seq![],
        });
    }
    if b.len() == 0 {
        assert(a + b =~= a);
        assert(sections_of(index, a) + sections_of(index, b) =~= sections_of(index, a));
    } else {
        law_sections_in_order(index, a, b.drop_last());
        assert((a + b).drop_last() =~= a + b.drop_last());
        assert((a + b).last() == b.last());
        assert(sections_of(index, a + b) =~= sections_of(index, a) + sections_of(index, b));
    }
}

/// The structs that describe sections are those of the sections.
pub proof fn law_structs_of_sections(sections: Seq<(Seq<char>, Seq<char>)>, name: Seq<char>)
    ensures
        section_structs(sections).contains(name) <==> exists|i: int|
            0 <= i < sections.len() && (#[trigger] sections[i]).1 == name,
{
    let names = sections.map_values(|section: (Seq<char>, Seq<char>)| section.1);
    if names.contains(name) {
        let i = choose|i: int| 0 <= i < names.len() && names[i] == name;
        assert(sections[i].1 == name);
    }
    if exists|i: int| 0 <= i < sections.len() && (#[trigger] sections[i]).1 == name {
        let i = choose|i: int| 0 <= i < sections.len() && (#[trigger] sections[i]).1 == name;
        assert(names[i] == name);
    }
}

/// The last section of a title tells which struct describes it. A title that no section has is
/// described by none.
pub proof fn law_last_section_counts(
    sections: Seq<(Seq<char>, Seq<char>)>,
    i: int,
    title: Seq<char>,
)
    requires
        -1 <= i < sections.len(),
        i >= 0 ==> sections[i].0 == title,
        forall|j: int| i < j < sections.len() ==> (#[trigger] sections[j]).0 != title,
    ensures
        section_map(sections).contains_key(title) <==> i >= 0,
        i >= 0 ==> section_map(sections)[title] == sections[i].1,
    decreases sections.len(),
{
    if sections.len() > 0 && i < sections.len() - 1 {
        let earlier = sections.drop_last();
        assert(sections[sections.len() - 1].0 != title);
        assert forall|j: int| i < j < earlier.len() implies (#[trigger] earlier[j]).0 != title by {
            assert(earlier[j] == sections[j]);
        }
        law_last_section_counts(earlier, i, title);
    }
}

/// The characters of the values of a map are those of each of its values.
pub proof fn law_values_are_viewed(map: Map<Seq<char>, String>, key: Seq<char>)
    ensures
        value_views(map).contains_key(key) <==> map.contains_key(key),
        map.contains_key(key) ==> value_views(map)[key] == map[key]@,
{
}

/// The main struct is the first item of the index that is a struct of that name.
pub proof fn law_main_struct_is_first(index: Index, i: int, name: Seq<char>)
    requires
        0 <= i <= index.len(),
        forall|j: int|
            0 <= j < i ==> text_at((#[trigger] index[j]).1, seq!["name"@]) != Some(name)
                || object_at(index[j].1, seq!["inner"@, "struct"@]) is None,
        i < index.len() ==> text_at(index[i].1, seq!["name"@]) == Some(name) && object_at(
            index[i].1,
            seq!["inner"@, "struct"@],
        ) is Some,
    ensures
        find_struct(index, name) == (if i < index.len() {
            Some(index[i].1)
        } else {
            None
        }),
    decreases index.len(),
{
    if i > 0 {
        let rest = index.drop_first();
        assert(text_at(index[0].1, seq!["name"@]) != Some(name) || object_at(
            index[0].1,
            seq!["inner"@, "struct"@],
        ) is None);
        assert forall|j: int| 0 <= j < i - 1 implies text_at((#[trigger] rest[j]).1, seq!["name"@])
            != Some(name) || object_at(rest[j].1, seq!["inner"@, "struct"@]) is None by {
            assert(rest[j] == index[j + 1]);
        }
        if i < index.len() {
            assert(rest[i - 1] == index[i]);
        }
        law_main_struct_is_first(rest, i - 1, name);
    }
}

/// The fields of a struct are the ids that it lists, where it has named fields.
pub proof fn law_fields_are_listed_ids(item: JsonModel)
    ensures
        match list_at(item, seq!["inner"@, "struct"@, "kind"@, "plain"@, "fields"@]) {
            Some(ids) => field_ids(item) == ids,
            None => field_ids(item).len() == 0,
        },
{
}

} // verus!
