//! Items in the index of a crate, and the structs that the types of fields name.

use vstd::prelude::*;

use crate::json::{
    at_key, at_path, get_json_array, get_json_object, get_json_path, get_json_string, get_member,
    items_model, keys_1, keys_2, keys_3, keys_5, lemma_model, list_at, member, members_model,
    object_at, text_at, Json, JsonModel,
};
use crate::text::{decimal, decimal_of, ends_with, same, strip_suffix};

verus! {

/// The items of a crate, by their ids.
pub type Index = Seq<(Seq<char>, JsonModel)>;

/// The name of an item.
pub open spec fn item_name(item: JsonModel) -> Option<Seq<char>> {
    text_at(item, seq!["name"@])
}

/// Whether an item is a struct.
pub open spec fn is_struct(item: JsonModel) -> bool {
    object_at(item, seq!["inner"@, "struct"@]) is Some
}

/// Whether an item is the struct `name`.
pub open spec fn is_struct_named(item: JsonModel, name: Seq<char>) -> bool {
    item_name(item) == Some(name) && is_struct(item)
}

/// Whether the struct `name` is in the index.
pub open spec fn struct_exists(index: Index, name: Seq<char>) -> bool {
    exists|i: int| 0 <= i < index.len() && is_struct_named((#[trigger] index[i]).1, name)
}

/// The key in the index that the id of a field stands for: an id is a number or a text.
pub open spec fn key_of(id: JsonModel) -> Option<Seq<char>> {
    match id {
        JsonModel::Number(Some(n)) => Some(decimal(n as nat)),
        JsonModel::Text(text) => Some(text),
        _ => None,
    }
}

/// The item with this id.
pub open spec fn item_of(index: Index, id: JsonModel) -> Option<JsonModel> {
    match key_of(id) {
        Some(key) => member(index, key),
        None => None,
    }
}

/// The documentation of an item.
pub open spec fn docs_of(item: JsonModel) -> Option<Seq<char>> {
    text_at(item, seq!["docs"@])
}

/// The ids of the fields of a struct with named fields.
pub open spec fn field_ids(item: JsonModel) -> Seq<JsonModel> {
    match list_at(item, seq!["inner"@, "struct"@, "kind"@, "plain"@, "fields"@]) {
        Some(ids) => ids,
        None => seq![],
    }
}

/// Tells whether the item is the struct `name`.
pub(crate) fn struct_named(item: &Json, name: &str) -> (yes: bool)
    ensures
        yes == is_struct_named(item@, name@),
{
    match get_json_string(item, &keys_1("name")) {
        Some(item_name) => same(item_name, name) && get_json_object(
            item,
            &keys_2("inner", "struct"),
        ).is_some(),
        None => false,
    }
}

/// Tells whether the struct `name` is in the index.
pub fn struct_exists_in_index(name: &str, index_obj: &Vec<(String, Json)>) -> (yes: bool)
    ensures
        yes == struct_exists(members_model(index_obj@), name@),
{
    let ghost index = members_model(index_obj@);
    let mut i: usize = 0;
    while i < index_obj.len()
        invariant
            i <= index_obj.len(),
            index == members_model(index_obj@),
            forall|j: int| 0 <= j < i ==> !is_struct_named((#[trigger] index[j]).1, name@),
        decreases index_obj.len() - i,
    {
        proof {
            assert(index[i as int].1 == index_obj@[i as int].1@);
        }
        if struct_named(&index_obj[i].1, name) {
            return true;
        }
        i = i + 1;
    }
    false
}

/// The ids of the fields of a struct, where it has named fields.
pub(crate) fn find_field_ids<'a>(item: &'a Json) -> (ids: Option<&'a Vec<Json>>)
    ensures
        match ids {
            Some(ids) => field_ids(item@) == items_model(ids@),
            None => field_ids(item@).len() == 0,
        },
{
    get_json_array(item, &keys_5("inner", "struct", "kind", "plain", "fields"))
}

/// The item with this id.
pub(crate) fn find_item<'a>(index_obj: &'a Vec<(String, Json)>, id: &Json) -> (item: Option<
    &'a Json,
>)
    ensures
        match item {
            Some(item) => item_of(members_model(index_obj@), id@) == Some(item@),
            None => item_of(members_model(index_obj@), id@) is None,
        },
{
    match id {
        Json::Number(Some(n)) => get_member(index_obj, decimal_of(*n).as_str()),
        Json::Text(text) => get_member(index_obj, text.as_str()),
        _ => None,
    }
}

/// Whether `path` is that of a collection of which the items count.
pub open spec fn is_collection(path: Seq<char>) -> bool {
    path == "Vec"@ || ends_with(path, "HashSet"@)
}

/// The type that is the first argument of a generic type.
pub open spec fn argument_of(type_info: JsonModel) -> Option<JsonModel> {
    match list_at(type_info, seq!["args"@, "angle_bracketed"@, "args"@]) {
        Some(args) => if args.len() > 0 {
            at_path(args[0], seq!["type"@])
        } else {
            None
        },
        None => None,
    }
}

proof fn lemma_member_is_smaller(members: Index, key: Seq<char>)
    ensures
        member(members, key) matches Some(inner) ==> exists|i: int|
            0 <= i < members.len() && (#[trigger] members[i]).1 == inner,
    decreases members.len(),
{
    if members.len() > 0 && members[0].0 != key {
        let rest = members.drop_first();
        lemma_member_is_smaller(rest, key);
        if let Some(inner) = member(rest, key) {
            let i = choose|i: int| 0 <= i < rest.len() && (#[trigger] rest[i]).1 == inner;
            assert(members[i + 1].1 == inner);
        }
    }
}

/// What stands behind a key is smaller than the whole.
proof fn lemma_at_key_is_smaller(value: JsonModel, key: Seq<char>)
    ensures
        at_key(value, key) matches Some(inner) ==> decreases_to!(value => inner),
{
    if let JsonModel::Object(members) = value {
        lemma_member_is_smaller(members, key);
        if let Some(inner) = member(members, key) {
            let i = choose|i: int| 0 <= i < members.len() && (#[trigger] members[i]).1 == inner;
            assert(decreases_to!(value => value->Object_0));
            assert(decreases_to!(members => members[i]));
            assert(decreases_to!(members[i] => members[i].1));
        }
    }
}

/// What stands at the end of a path is smaller than the whole, or the whole.
proof fn lemma_at_path_is_smaller(value: JsonModel, path: Seq<Seq<char>>)
    ensures
        at_path(value, path) matches Some(inner) ==> inner == value || decreases_to!(
            value => inner
        ),
        path.len() > 0 ==> (at_path(value, path) matches Some(inner) ==> decreases_to!(
            value => inner
        )),
    decreases path.len(),
{
    if path.len() > 0 {
        lemma_at_key_is_smaller(value, path[0]);
        if let Some(inner) = at_key(value, path[0]) {
            lemma_at_path_is_smaller(inner, path.drop_first());
        }
    }
}

/// The argument of a generic type is smaller than the type.
proof fn lemma_argument_is_smaller(type_info: JsonModel)
    ensures
        argument_of(type_info) matches Some(inner) ==> decreases_to!(type_info => inner),
{
    let path = seq!["args"@, "angle_bracketed"@, "args"@];
    lemma_at_path_is_smaller(type_info, path);
    if let Some(args) = list_at(type_info, path) {
        let list = at_path(type_info, path)->0;
        if args.len() > 0 {
            assert(decreases_to!(list => list->List_0));
            assert(decreases_to!(args => args[0]));
            lemma_at_path_is_smaller(args[0], seq!["type"@]);
        }
    }
}

/// The struct `name`, where it is in the index.
pub open spec fn plain_struct(name: Seq<char>, index: Index) -> Option<(Seq<char>, bool)> {
    if struct_exists(index, name) {
        Some((name, false))
    } else {
        None
    }
}

/// What a type with this path stands for, whose argument stands for `argument`. A collection is one
/// of its items, and an `Option` (if `options`) is what it holds. Anything else is a struct of the
/// index.
pub open spec fn struct_at(
    path: Option<Seq<char>>,
    argument: Option<(Seq<char>, bool)>,
    options: bool,
    index: Index,
) -> Option<(Seq<char>, bool)> {
    match path {
        Some(path) => if is_collection(path) {
            match argument {
                Some((name, _)) => Some((name, true)),
                None => None,
            }
        } else if options && path == "Option"@ {
            argument
        } else {
            plain_struct(path, index)
        },
        None => None,
    }
}

/// The struct that a type stands for, and whether it stands for a collection of them. A type says
/// so by its `path`, by the `path` of its `resolved_path`, or else by the `name` of that.
pub open spec fn struct_in_type(type_info: JsonModel, index: Index) -> Option<(Seq<char>, bool)>
    decreases type_info,
    via struct_in_type_terminates
{
    let argument = match argument_of(type_info) {
        Some(argument) => struct_in_type(argument, index),
        None => None,
    };
    let named = struct_at(text_at(type_info, seq!["path"@]), argument, true, index);
    let resolved = at_path(type_info, seq!["resolved_path"@]);
    if named is Some {
        named
    } else if resolved matches Some(JsonModel::Object(_)) {
        let argument = match argument_of(resolved->0) {
            Some(argument) => struct_in_type(argument, index),
            None => None,
        };
        let named = struct_at(text_at(resolved->0, seq!["path"@]), argument, false, index);
        if named is Some {
            named
        } else {
            match item_name(resolved->0) {
                Some(name) => plain_struct(name, index),
                None => None,
            }
        }
    } else {
        None
    }
}

#[via_fn]
proof fn struct_in_type_terminates(type_info: JsonModel, index: Index) {
    lemma_argument_is_smaller(type_info);
    lemma_at_path_is_smaller(type_info, seq!["resolved_path"@]);
    if let Some(resolved) = at_path(type_info, seq!["resolved_path"@]) {
        lemma_argument_is_smaller(resolved);
    }
}

/// What was found, with the characters of the name.
pub open spec fn found_view(found: Option<(String, bool)>) -> Option<(Seq<char>, bool)> {
    match found {
        Some((name, collection)) => Some((name@, collection)),
        None => None,
    }
}

/// The struct `name`, where it is in the index.
fn find_plain_struct(name: &str, index_obj: &Vec<(String, Json)>) -> (found: Option<(String, bool)>)
    ensures
        found_view(found) == plain_struct(name@, members_model(index_obj@)),
{
    if struct_exists_in_index(name, index_obj) {
        Some((name.to_owned(), false))
    } else {
        None
    }
}

/// Tells whether `path` is that of a collection of which the items count.
fn collection(path: &str) -> (yes: bool)
    ensures
        yes == is_collection(path@),
{
    same(path, "Vec") || strip_suffix(path, "HashSet").is_some()
}

/// What the first argument of a generic type stands for.
fn parse_argument(type_info: &Json, index_obj: &Vec<(String, Json)>) -> (found: Option<
    (String, bool),
>)
    ensures
        found_view(found) == match argument_of(type_info@) {
            Some(argument) => struct_in_type(argument, members_model(index_obj@)),
            None => None,
        },
    decreases type_info@, 0int,
{
    if let Some(args) = get_json_array(type_info, &keys_3("args", "angle_bracketed", "args")) {
        if args.len() > 0 {
            if let Some(argument) = get_json_path(&args[0], &keys_1("type")) {
                proof {
                    assert(argument_of(type_info@) == Some(argument@));
                    lemma_argument_is_smaller(type_info@);
                }
                return parse_type_for_struct_name(argument, index_obj);
            }
        }
    }
    None
}

/// Finds the struct that a type stands for, and whether it stands for a collection of them.
pub fn parse_type_for_struct_name(type_info: &Json, index_obj: &Vec<(String, Json)>) -> (found:
    Option<(String, bool)>)
    ensures
        found_view(found) == struct_in_type(type_info@, members_model(index_obj@)),
    decreases type_info@, 1int,
{
    if let Some(path) = get_json_string(type_info, &keys_1("path")) {
        if collection(path) {
            if let Some((name, _)) = parse_argument(type_info, index_obj) {
                return Some((name, true));
            }
        } else if same(path, "Option") {
            let found = parse_argument(type_info, index_obj);
            if found.is_some() {
                return found;
            }
        } else {
            let found = find_plain_struct(path, index_obj);
            if found.is_some() {
                return found;
            }
        }
    }
    if let Some(resolved) = get_json_path(type_info, &keys_1("resolved_path")) {
        proof {
            lemma_at_path_is_smaller(type_info@, seq!["resolved_path"@]);
            lemma_model(*resolved);
        }
        if let Json::Object(_) = resolved {
            if let Some(path) = get_json_string(resolved, &keys_1("path")) {
                if collection(path) {
                    if let Some((name, _)) = parse_argument(resolved, index_obj) {
                        return Some((name, true));
                    }
                } else {
                    let found = find_plain_struct(path, index_obj);
                    if found.is_some() {
                        return found;
                    }
                }
            }
            if let Some(name) = get_json_string(resolved, &keys_1("name")) {
                return find_plain_struct(name, index_obj);
            }
        }
    }
    None
}

/// Where an item says what type it has: the first of four places that is there.
pub open spec fn type_of(item: JsonModel) -> Option<JsonModel> {
    let resolved = at_path(item, seq!["inner"@, "struct_field"@, "resolved_path"@]);
    let of_field = at_path(item, seq!["inner"@, "struct_field"@, "type"@]);
    let inner = at_path(item, seq!["inner"@, "type"@]);
    if resolved is Some {
        resolved
    } else if of_field is Some {
        of_field
    } else if inner is Some {
        inner
    } else {
        at_path(item, seq!["type"@])
    }
}

/// The struct that a field stands for, and whether it stands for a collection of them.
pub open spec fn struct_in_field(item: JsonModel, index: Index) -> Option<(Seq<char>, bool)> {
    match type_of(item) {
        Some(type_info) => struct_in_type(type_info, index),
        None => None,
    }
}

/// Finds the struct that a field stands for, and whether it stands for a collection of them.
pub fn extract_field_type_info(field_item: &Json, index_obj: &Vec<(String, Json)>) -> (found:
    Option<(String, bool)>)
    ensures
        found_view(found) == struct_in_field(field_item@, members_model(index_obj@)),
{
    if let Some(type_info) = get_json_path(
        field_item,
        &keys_3("inner", "struct_field", "resolved_path"),
    ) {
        return parse_type_for_struct_name(type_info, index_obj);
    }
    if let Some(type_info) = get_json_path(field_item, &keys_3("inner", "struct_field", "type")) {
        return parse_type_for_struct_name(type_info, index_obj);
    }
    if let Some(type_info) = get_json_path(field_item, &keys_2("inner", "type")) {
        return parse_type_for_struct_name(type_info, index_obj);
    }
    if let Some(type_info) = get_json_path(field_item, &keys_1("type")) {
        return parse_type_for_struct_name(type_info, index_obj);
    }
    None
}

/// The id of a field can be a number or the text of that number.
pub proof fn law_number_is_text(index: Index, n: u64)
    ensures
        item_of(index, JsonModel::Number(Some(n))) == item_of(
            index,
            JsonModel::Text(decimal(n as nat)),
        ),
{
}

/// An `Option` stands for what it holds, collection or not.
pub proof fn law_option_is_transparent(type_info: JsonModel, argument: JsonModel, index: Index)
    requires
        text_at(type_info, seq!["path"@]) == Some("Option"@),
        argument_of(type_info) == Some(argument),
        struct_in_type(argument, index) is Some,
    ensures
        struct_in_type(type_info, index) == struct_in_type(argument, index),
{
    reveal_strlit("Option");
    reveal_strlit("Vec");
    reveal_strlit("HashSet");
    assert("Option"@.len() == 6 && "Vec"@.len() == 3 && "HashSet"@.len() == 7);
}

/// A `Vec` or a `HashSet` stands for a collection of what its items stand for.
pub proof fn law_collection_counts_items(
    type_info: JsonModel,
    path: Seq<char>,
    argument: JsonModel,
    index: Index,
)
    requires
        text_at(type_info, seq!["path"@]) == Some(path),
        is_collection(path),
        argument_of(type_info) == Some(argument),
    ensures
        struct_in_type(argument, index) matches Some((name, _)) ==> struct_in_type(
            type_info,
            index,
        ) == Some((name, true)),
{
}

/// A type stands for a struct of the index or for none.
pub proof fn law_found_struct_exists(type_info: JsonModel, index: Index)
    ensures
        struct_in_type(type_info, index) matches Some((name, _)) ==> struct_exists(index, name),
    decreases type_info,
{
    lemma_argument_is_smaller(type_info);
    lemma_at_path_is_smaller(type_info, seq!["resolved_path"@]);
    if let Some(argument) = argument_of(type_info) {
        law_found_struct_exists(argument, index);
    }
    if let Some(resolved) = at_path(type_info, seq!["resolved_path"@]) {
        lemma_argument_is_smaller(resolved);
        if let Some(argument) = argument_of(resolved) {
            law_found_struct_exists(argument, index);
        }
    }
}

} // verus!
