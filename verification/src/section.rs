//! The sections of a configuration file: which fields of the main struct stand for which structs.

use vstd::prelude::*;

use crate::error::ExtractError;
use crate::item::{
    docs_of, extract_field_type_info, field_ids, find_field_ids, find_item, is_struct_named,
    item_name, item_of, law_found_struct_exists, struct_exists, struct_in_field,
    struct_named, type_of, Index,
};
use crate::json::{
    at_path, get_json_path, get_json_string, items_model, keys_1, lemma_model, members_model, Json,
    JsonModel,
};
use crate::names::{ascends, insert_ascending, name_views, NameMap};
use crate::text::{begins_with, contains, occurs};

verus! {

/// Whether the documentation of a field says to leave the field out.
pub open spec fn is_ignored(item: JsonModel) -> bool {
    match docs_of(item) {
        Some(docs) => occurs(docs, "@ignore"@),
        None => false,
    }
}

/// The name of the section of a field: a table, or an array of tables for a collection.
pub open spec fn section_name(field: Seq<char>, collection: bool) -> Seq<char> {
    if collection {
        "[["@ + field + "]]"@
    } else {
        "["@ + field + "]"@
    }
}

/// The section that a field stands for, and the struct that describes it.
pub open spec fn section_of(index: Index, id: JsonModel) -> Option<(Seq<char>, Seq<char>)> {
    match item_of(index, id) {
        Some(item) => match (item_name(item), struct_in_field(item, index)) {
            (Some(field), Some((name, collection))) => if is_ignored(item) {
                None
            } else {
                Some((section_name(field, collection), name))
            },
            _ => None,
        },
        None => None,
    }
}

/// The sections that the fields stand for, in their order.
pub open spec fn sections_of(index: Index, ids: Seq<JsonModel>) -> Seq<(Seq<char>, Seq<char>)>
    decreases ids.len(),
{
    if ids.len() == 0 {
        seq![]
    } else {
        let earlier = sections_of(index, ids.drop_last());
        match section_of(index, ids.last()) {
            Some(section) => earlier.push(section),
            None => earlier,
        }
    }
}

/// The structs that describe the sections.
pub open spec fn section_structs(sections: Seq<(Seq<char>, Seq<char>)>) -> Set<Seq<char>> {
    sections.map_values(|section: (Seq<char>, Seq<char>)| section.1).to_set()
}

/// The struct that describes each section: where a section comes twice, the last.
pub open spec fn section_map(sections: Seq<(Seq<char>, Seq<char>)>) -> Map<Seq<char>, Seq<char>>
    decreases sections.len(),
{
    if sections.len() == 0 {
        Map::empty()
    } else {
        section_map(sections.drop_last()).insert(sections.last().0, sections.last().1)
    }
}

/// The characters of each value.
pub open spec fn value_views(map: Map<Seq<char>, String>) -> Map<Seq<char>, Seq<char>> {
    map.map_values(|value: String| value@)
}

/// The first item of the index that is the struct `name`.
pub open spec fn find_struct(index: Index, name: Seq<char>) -> Option<JsonModel>
    decreases index.len(),
{
    if index.len() == 0 {
        None
    } else if is_struct_named(index[0].1, name) {
        Some(index[0].1)
    } else {
        find_struct(index.drop_first(), name)
    }
}

/// The first item of the index that is the struct `name`.
pub(crate) fn main_struct<'a>(index_obj: &'a Vec<(String, Json)>, name: &str) -> (item: Option<
    &'a Json,
>)
    ensures
        match item {
            Some(item) => find_struct(members_model(index_obj@), name@) == Some(item@),
            None => find_struct(members_model(index_obj@), name@) is None,
        },
{
    let ghost index = members_model(index_obj@);
    let mut i: usize = 0;
    proof {
        assert(index.skip(0) =~= index);
    }
    while i < index_obj.len()
        invariant
            i <= index_obj.len(),
            index == members_model(index_obj@),
            find_struct(index, name@) == find_struct(index.skip(i as int), name@),
        decreases index_obj.len() - i,
    {
        proof {
            assert(index.skip(i as int)[0] == index[i as int]);
            assert(index.skip(i as int).drop_first() =~= index.skip(i + 1));
        }
        if struct_named(&index_obj[i].1, name) {
            return Some(&index_obj[i].1);
        }
        i = i + 1;
    }
    None
}

/// The name of the section of a field.
pub(crate) fn section_title(field: &str, collection: bool) -> (text: String)
    ensures
        text@ == section_name(field@, collection),
{
    if collection {
        let mut text: String = "[[".to_owned();
        text.append(field);
        text.append("]]");
        text
    } else {
        let mut text: String = "[".to_owned();
        text.append(field);
        text.append("]");
        text
    }
}

/// The section that a field stands for, and the struct that describes it.
fn find_section(index_obj: &Vec<(String, Json)>, id: &Json) -> (section: Option<(String, String)>)
    ensures
        match section {
            Some((title, name)) => section_of(members_model(index_obj@), id@) == Some(
                (title@, name@),
            ),
            None => section_of(members_model(index_obj@), id@) is None,
        },
{
    if let Some(item) = find_item(index_obj, id) {
        if let Some(field) = get_json_string(item, &keys_1("name")) {
            if let Some(docs) = get_json_string(item, &keys_1("docs")) {
                if contains(docs, "@ignore") {
                    return None;
                }
            }
            if let Some((name, collection)) = extract_field_type_info(item, index_obj) {
                return Some((section_title(field, collection), name));
            }
        }
    }
    None
}

/// Finds the structs that describe the sections of a configuration file, in ascending order, and
/// which section each of them describes. The fields of the struct `main_struct_name` stand for the
/// sections.
pub fn derive_config_structs_from_main(rustdoc_json: &Json, main_struct_name: &str) -> (result:
    Result<(Vec<String>, NameMap<String>), ExtractError>)
    ensures
        match at_path(rustdoc_json@, seq!["index"@]) {
            None => result == Err::<(Vec<String>, NameMap<String>), _>(ExtractError::MissingIndex),
            Some(JsonModel::Object(index)) => match find_struct(index, main_struct_name@) {
                None => result matches Err(ExtractError::MainStructNotFound(name)) && name@
                    == main_struct_name@,
                Some(item) => result matches Ok((structs, mapping)) && {
                    let sections = sections_of(index, field_ids(item));
                    &&& ascends(name_views(structs@))
                    &&& name_views(structs@).to_set() == section_structs(sections)
                    &&& mapping.wf()
                    &&& value_views(mapping@) == section_map(sections)
                },
            },
            Some(_) => result == Err::<(Vec<String>, NameMap<String>), _>(
                ExtractError::IndexNotObject,
            ),
        },
{
    let index = match get_json_path(rustdoc_json, &keys_1("index")) {
        Some(index) => index,
        None => {
            return Err(ExtractError::MissingIndex);
        },
    };
    proof {
        lemma_model(*index);
    }
    let index_obj = match index {
        Json::Object(members) => members,
        _ => {
            return Err(ExtractError::IndexNotObject);
        },
    };
    let item = match main_struct(index_obj, main_struct_name) {
        Some(item) => item,
        None => {
            return Err(ExtractError::MainStructNotFound(main_struct_name.to_owned()));
        },
    };
    let mut structs: Vec<String> = Vec::new();
    let mut mapping: NameMap<String> = NameMap::new();
    let ghost all = members_model(index_obj@);
    proof {
        assert(name_views(structs@).to_set() =~= section_structs(seq![]));
        assert(value_views(mapping@) =~= section_map(seq![]));
    }
    if let Some(ids) = find_field_ids(item) {
        let ghost fields = items_model(ids@);
        let mut i: usize = 0;
        proof {
            assert(fields.take(0).len() == 0);
        }
        while i < ids.len()
            invariant
                i <= ids.len(),
                all == members_model(index_obj@),
                fields == items_model(ids@),
                ascends(name_views(structs@)),
                name_views(structs@).to_set() == section_structs(
                    sections_of(all, fields.take(i as int)),
                ),
                mapping.wf(),
                value_views(mapping@) == section_map(sections_of(all, fields.take(i as int))),
            decreases ids.len() - i,
        {
            let ghost earlier = sections_of(all, fields.take(i as int));
            proof {
                assert(fields.take(i + 1).drop_last() =~= fields.take(i as int));
                assert(fields.take(i + 1).last() == ids@[i as int]@);
            }
            if let Some((title, name)) = find_section(index_obj, &ids[i]) {
                let ghost section = (title@, name@);
                let ghost entries = mapping@;
                proof {
                    lemma_section_structs(earlier, section);
                    assert(earlier.push(section).drop_last() =~= earlier);
                }
                mapping.insert(title, name.clone());
                insert_ascending(&mut structs, name);
                proof {
                    assert(value_views(mapping@) =~= value_views(entries).insert(
                        section.0,
                        section.1,
                    ));
                }
            }
            i = i + 1;
        }
        proof {
            assert(fields.take(i as int) =~= fields);
        }
    }
    Ok((structs, mapping))
}

proof fn lemma_section_structs(
    sections: Seq<(Seq<char>, Seq<char>)>,
    section: (Seq<char>, Seq<char>),
)
    ensures
        section_structs(sections.push(section)) == section_structs(sections).insert(section.1),
{
    let names = sections.map_values(|section: (Seq<char>, Seq<char>)| section.1);
    let now = sections.push(section).map_values(|section: (Seq<char>, Seq<char>)| section.1);
    assert(now =~= names.push(section.1));
    names.lemma_push_to_set_commute(section.1);
}

/// A field whose documentation says `@ignore` stands for no section.
pub proof fn law_ignored_field_has_no_section(index: Index, id: JsonModel, item: JsonModel)
    requires
        item_of(index, id) == Some(item),
        is_ignored(item),
    ensures
        section_of(index, id) is None,
{
}

/// The title of a section tells which field it belongs to, and whether that is a collection.
pub proof fn law_title_tells_field(
    field: Seq<char>,
    collection: bool,
    other_field: Seq<char>,
    other_collection: bool,
)
    requires
        !begins_with(field, seq!['[']),
        !begins_with(other_field, seq!['[']),
        section_name(field, collection) == section_name(other_field, other_collection),
    ensures
        field == other_field,
        collection == other_collection,
{
    reveal_strlit("[");
    reveal_strlit("]");
    reveal_strlit("[[");
    reveal_strlit("]]");
    let title = section_name(field, collection);
    let other = section_name(other_field, other_collection);
    assert(field.len() > 0 && field[0] == '[' ==> field.subrange(0, 1) =~= seq!['[']);
    assert(other_field.len() > 0 && other_field[0] == '[' ==> other_field.subrange(0, 1)
        =~= seq!['[']);
    if collection == other_collection {
        let n: int = if collection {
            2
        } else {
            1
        };
        assert(field =~= title.subrange(n, title.len() - n));
        assert(other_field =~= other.subrange(n, other.len() - n));
    } else if collection {
        assert(title[1] == '[');
        assert(other[1] == other_field[0]);
    } else {
        assert(other[1] == '[');
        assert(title[1] == field[0]);
    }
}

/// Every struct that describes a section is in the index.
pub proof fn law_section_structs_exist(index: Index, ids: Seq<JsonModel>)
    ensures
        forall|name: Seq<char>| #[trigger]
            section_structs(sections_of(index, ids)).contains(name) ==> struct_exists(index, name),
    decreases ids.len(),
{
    if ids.len() > 0 {
        law_section_structs_exist(index, ids.drop_last());
        if let Some(section) = section_of(index, ids.last()) {
            lemma_section_structs(sections_of(index, ids.drop_last()), section);
            law_found_struct_exists(type_of(item_of(index, ids.last())->0)->0, index);
        }
    }
}

/// Every section is described by one of the structs. Where no section comes twice, every one of
/// the structs describes a section.
pub proof fn law_sections_are_described(sections: Seq<(Seq<char>, Seq<char>)>)
    ensures
        forall|title: Seq<char>| #[trigger]
            section_map(sections).contains_key(title) ==> section_structs(sections).contains(
                section_map(sections)[title],
            ),
        (forall|i: int, j: int|
            0 <= i < j < sections.len() ==> (#[trigger] sections[i]).0 != (
            #[trigger] sections[j]).0) ==> section_structs(sections) == section_map(
            sections,
        ).values(),
    decreases sections.len(),
{
    if sections.len() == 0 {
        assert(section_structs(sections) =~= section_map(sections).values());
    } else {
        let earlier = sections.drop_last();
        let section = sections.last();
        law_sections_are_described(earlier);
        lemma_section_structs(earlier, section);
        assert(earlier.push(section) =~= sections);
        assert forall|title: Seq<char>| #[trigger]
            section_map(sections).contains_key(title) implies section_structs(sections).contains(
            section_map(sections)[title],
        ) by {
            if title != section.0 {
                assert(section_map(earlier).contains_key(title));
            }
        }
        if forall|i: int, j: int|
            0 <= i < j < sections.len() ==> (#[trigger] sections[i]).0 != (
            #[trigger] sections[j]).0 {
            assert forall|i: int, j: int| 0 <= i < j < earlier.len() implies (
            #[trigger] earlier[i]).0 != (#[trigger] earlier[j]).0 by {
                assert(sections[i].0 != sections[j].0);
            }
            lemma_section_titles(earlier);
            let old_map = section_map(earlier);
            let new_map = section_map(sections);
            assert(!old_map.contains_key(section.0)) by {
                if old_map.contains_key(section.0) {
                    let i = choose|i: int|
                        0 <= i < earlier.len() && (#[trigger] earlier[i]).0 == section.0;
                    assert(sections[i].0 == section.0);
                    assert(sections[sections.len() - 1].0 == section.0);
                }
            }
            assert forall|name: Seq<char>| new_map.values().contains(name) <==> (
            old_map.values().contains(name) || name == section.1) by {
                if old_map.values().contains(name) {
                    let title = choose|title: Seq<char>| #[trigger]
                        old_map.contains_key(title) && old_map[title] == name;
                    assert(new_map.contains_key(title) && new_map[title] == name);
                }
                assert(new_map.contains_key(section.0) && new_map[section.0] == section.1);
                if new_map.values().contains(name) && name != section.1 {
                    let title = choose|title: Seq<char>| #[trigger]
                        new_map.contains_key(title) && new_map[title] == name;
                    assert(old_map.contains_key(title) && old_map[title] == name);
                }
            }
            assert(section_structs(sections) =~= new_map.values());
        }
    }
}

/// The titles that have a struct are those of the sections.
proof fn lemma_section_titles(sections: Seq<(Seq<char>, Seq<char>)>)
    ensures
        forall|title: Seq<char>| #[trigger]
            section_map(sections).contains_key(title) <==> exists|i: int|
            0 <= i < sections.len() && (#[trigger] sections[i]).0 == title,
    decreases sections.len(),
{
    if sections.len() > 0 {
        let earlier = sections.drop_last();
        lemma_section_titles(earlier);
        assert forall|title: Seq<char>| #[trigger]
            section_map(sections).contains_key(title) <==> exists|i: int|
            0 <= i < sections.len() && (#[trigger] sections[i]).0 == title by {
            if section_map(earlier).contains_key(title) {
                let i = choose|i: int|
                    0 <= i < earlier.len() && (#[trigger] earlier[i]).0 == title;
                assert(sections[i].0 == title);
            }
            assert(sections[sections.len() - 1].0 == sections.last().0);
            if exists|i: int| 0 <= i < sections.len() && (#[trigger] sections[i]).0 == title {
                let i = choose|i: int|
                    0 <= i < sections.len() && (#[trigger] sections[i]).0 == title;
                if i < earlier.len() {
                    assert(earlier[i].0 == title);
                }
            }
        }
    }
}

} // verus!
