//! What is told of the sections that are found.

use vstd::prelude::*;

use crate::item::{
    extract_field_type_info, field_ids, find_field_ids, find_item, item_name, item_of,
    struct_in_field, Index,
};
use crate::json::{
    get_json_object, get_json_string, items_model, keys_1, members_model, object_at, Json,
    JsonModel,
};
use crate::names::{name_views, NameMap};
use crate::section::{
    find_struct, is_ignored, main_struct, section_name, section_of, section_title,
};
use crate::text::{contains, joined, quote, quoted, view_of};

verus! {

/// What is told of a field that its documentation says to leave out.
pub open spec fn ignored_message(field: Seq<char>) -> Seq<char> {
    "Ignoring field '"@ + field + "' due to @ignore annotation"@
}

/// What is told of a field that stands for a section.
pub open spec fn mapped_message(field: Seq<char>, name: Seq<char>, title: Seq<char>) -> Seq<char> {
    "Mapped field '"@ + field + "' -> struct '"@ + name + "' -> section '"@ + title + "'"@
}

/// What is told of a field whose type stands for no struct.
pub open spec fn skipped_message(field: Seq<char>) -> Seq<char> {
    "Warning: Could not extract type information for field '"@ + field + "', skipping"@
}

/// What is told of the field with this id, where it has a name.
pub open spec fn message_of(index: Index, id: JsonModel) -> Option<Seq<char>> {
    match item_of(index, id) {
        Some(item) => match item_name(item) {
            Some(field) => Some(
                if is_ignored(item) {
                    ignored_message(field)
                } else {
                    match struct_in_field(item, index) {
                        Some((name, collection)) => mapped_message(
                            field,
                            name,
                            section_name(field, collection),
                        ),
                        None => skipped_message(field),
                    }
                },
            ),
            None => None,
        },
        None => None,
    }
}

/// What is told of the fields with these ids, in their order.
pub open spec fn messages_of(index: Index, ids: Seq<JsonModel>) -> Seq<Seq<char>>
    decreases ids.len(),
{
    if ids.len() == 0 {
        seq![]
    } else {
        let earlier = messages_of(index, ids.drop_last());
        match message_of(index, ids.last()) {
            Some(message) => earlier.push(message),
            None => earlier,
        }
    }
}

/// What is told of the fields of the struct `name`, where it is in the index of the JSON.
pub open spec fn messages_in(rustdoc_json: JsonModel, name: Seq<char>) -> Seq<Seq<char>> {
    match object_at(rustdoc_json, seq!["index"@]) {
        Some(index) => match find_struct(index, name) {
            Some(item) => messages_of(index, field_ids(item)),
            None => seq![],
        },
        None => seq![],
    }
}

/// Tells what became of the field with this id: ignored, mapped to a section, or skipped.
pub fn section_message(index_obj: &Vec<(String, Json)>, id: &Json) -> (message: Option<String>)
    ensures
        view_of(message) == message_of(members_model(index_obj@), id@),
{
    let item = match find_item(index_obj, id) {
        Some(item) => item,
        None => {
            return None;
        },
    };
    let field = match get_json_string(item, &keys_1("name")) {
        Some(field) => field,
        None => {
            return None;
        },
    };
    if let Some(docs) = get_json_string(item, &keys_1("docs")) {
        if contains(docs, "@ignore") {
            let mut message: String = "Ignoring field '".to_owned();
            message.append(field);
            message.append("' due to @ignore annotation");
            return Some(message);
        }
    }
    match extract_field_type_info(item, index_obj) {
        Some((name, collection)) => {
            let mut message: String = "Mapped field '".to_owned();
            message.append(field);
            message.append("' -> struct '");
            message.append(name.as_str());
            message.append("' -> section '");
            message.append(section_title(field, collection).as_str());
            message.append("'");
            Some(message)
        },
        None => {
            let mut message: String =
                "Warning: Could not extract type information for field '".to_owned();
            message.append(field);
            message.append("', skipping");
            Some(message)
        },
    }
}

/// Tells what became of each field of the struct `main_struct_name`.
pub fn section_messages(rustdoc_json: &Json, main_struct_name: &str) -> (messages: Vec<String>)
    ensures
        name_views(messages@) == messages_in(rustdoc_json@, main_struct_name@),
{
    let mut messages: Vec<String> = Vec::new();
    proof {
        assert(name_views(messages@) =~= seq![]);
    }
    let index_obj = match get_json_object(rustdoc_json, &keys_1("index")) {
        Some(index_obj) => index_obj,
        None => {
            return messages;
        },
    };
    let item = match main_struct(index_obj, main_struct_name) {
        Some(item) => item,
        None => {
            return messages;
        },
    };
    let ghost all = members_model(index_obj@);
    if let Some(ids) = find_field_ids(item) {
        let ghost fields = items_model(ids@);
        let mut i: usize = 0;
        proof {
            assert(fields.take(0).len() == 0);
        }
        while i < ids.len()
            invariant
                i <= ids.len(),
                all == members_model(index_obj@),
                fields == items_model(ids@),
                name_views(messages@) == messages_of(all, fields.take(i as int)),
            decreases ids.len() - i,
        {
            proof {
                assert(fields.take(i + 1).drop_last() =~= fields.take(i as int));
                assert(fields.take(i + 1).last() == ids@[i as int]@);
            }
            if let Some(message) = section_message(index_obj, &ids[i]) {
                let ghost earlier = messages@;
                let ghost added = message@;
                messages.push(message);
                proof {
                    assert(name_views(messages@) =~= name_views(earlier).push(added));
                }
            }
            i = i + 1;
        }
        proof {
            assert(fields.take(i as int) =~= fields);
        }
    }
    messages
}

/// The names, quoted.
pub open spec fn quoted_names(names: Seq<Seq<char>>) -> Seq<Seq<char>> {
    names.map_values(|name: Seq<char>| quoted(name))
}

/// The names and values of the entries, quoted.
pub open spec fn quoted_entries(entries: Seq<(String, String)>) -> Seq<Seq<char>> {
    entries.map_values(
        |entry: (String, String)| quoted(entry.0@) + ": "@ + quoted(entry.1@),
    )
}

/// Tells which structs were found in the end.
pub fn structs_message(structs: &Vec<String>) -> (message: String)
    ensures
        message@ == "Final discovered structs: "@ + "["@ + joined(
            quoted_names(name_views(structs@)),
            ", "@,
        ) + "]"@,
{
    let ghost parts = quoted_names(name_views(structs@));
    let ghost start = "Final discovered structs: "@ + "["@;
    let mut message: String = "Final discovered structs: ".to_owned();
    message.append("[");
    let mut i: usize = 0;
    proof {
        assert(message@ =~= start + joined(parts.take(0), ", "@));
    }
    while i < structs.len()
        invariant
            i <= structs.len(),
            parts == quoted_names(name_views(structs@)),
            message@ == start + joined(parts.take(i as int), ", "@),
        decreases structs.len() - i,
    {
        let part = quote(structs[i].as_str());
        if i > 0 {
            message.append(", ");
        }
        message.append(part.as_str());
        proof {
            assert(part@ == parts[i as int]);
            lemma_joined_more(parts, ", "@, i as int);
            assert(message@ =~= start + joined(parts.take(i + 1), ", "@));
        }
        i = i + 1;
    }
    message.append("]");
    proof {
        assert(parts.take(i as int) =~= parts);
    }
    message
}

/// Tells which struct describes which section in the end, in the order of the entries.
pub fn mapping_message(mapping: &NameMap<String>) -> (message: String)
    ensures
        message@ == "Final section mappings: "@ + "{"@ + joined(
            quoted_entries(mapping.entries@),
            ", "@,
        ) + "}"@,
{
    let ghost parts = quoted_entries(mapping.entries@);
    let ghost start = "Final section mappings: "@ + "{"@;
    let mut message: String = "Final section mappings: ".to_owned();
    message.append("{");
    let mut i: usize = 0;
    proof {
        assert(message@ =~= start + joined(parts.take(0), ", "@));
    }
    while i < mapping.entries.len()
        invariant
            i <= mapping.entries.len(),
            parts == quoted_entries(mapping.entries@),
            message@ == start + joined(parts.take(i as int), ", "@),
        decreases mapping.entries.len() - i,
    {
        if i > 0 {
            message.append(", ");
        }
        message.append(quote(mapping.entries[i].0.as_str()).as_str());
        message.append(": ");
        message.append(quote(mapping.entries[i].1.as_str()).as_str());
        proof {
            let entry = mapping.entries@[i as int];
            assert(parts[i as int] == quoted(entry.0@) + ": "@ + quoted(entry.1@));
            lemma_joined_more(parts, ", "@, i as int);
            assert(message@ =~= start + joined(parts.take(i + 1), ", "@));
        }
        i = i + 1;
    }
    message.append("}");
    proof {
        assert(parts.take(i as int) =~= parts);
    }
    message
}

proof fn lemma_joined_more(parts: Seq<Seq<char>>, separator: Seq<char>, i: int)
    requires
        0 <= i < parts.len(),
    ensures
        joined(parts.take(i + 1), separator) == (if i == 0 {
            parts[0]
        } else {
            joined(parts.take(i), separator) + separator + parts[i]
        }),
        i == 0 ==> joined(parts.take(0), separator).len() == 0,
{
    assert(parts.take(i + 1).drop_last() =~= parts.take(i));
}

/// A field is told to be mapped to a section and a struct where it stands for them.
pub proof fn law_mapped_field_has_section(index: Index, id: JsonModel)
    ensures
        section_of(index, id) matches Some((title, name)) ==> message_of(index, id) == Some(
            mapped_message(item_name(item_of(index, id)->0)->0, name, title),
        ),
{
}

} // verus!
