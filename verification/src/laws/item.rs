//! Laws on items, and on the structs that types stand for.

use vstd::prelude::*;

use crate::item::{
    argument_of, is_collection, is_struct_named, item_of, struct_exists, struct_in_field,
    struct_in_type, Index,
};
use crate::json::{at_path, list_at, member, object_at, text_at, JsonModel};
use crate::laws::text::law_occurrence_is_part;
use crate::text::decimal;

verus! {

/// A struct is in the index if and only if an item has its name and is a struct.
pub proof fn law_struct_is_an_item(index: Index, name: Seq<char>)
    ensures
        struct_exists(index, name) <==> exists|i: int|
            0 <= i < index.len() && text_at((#[trigger] index[i]).1, seq!["name"@]) == Some(name)
                && object_at(index[i].1, seq!["inner"@, "struct"@]) is Some,
{
    if struct_exists(index, name) {
        let i = choose|i: int|
            0 <= i < index.len() && is_struct_named((#[trigger] index[i]).1, name);
        assert(text_at(index[i].1, seq!["name"@]) == Some(name));
    }
}

/// An id leads to the item under that text, or under the decimal digits of that number. Nothing
/// else is an id.
pub proof fn law_id_leads_to_item(index: Index, id: JsonModel)
    ensures
        id matches JsonModel::Text(key) ==> item_of(index, id) == member(index, key),
        id matches JsonModel::Number(Some(n)) ==> item_of(index, id) == member(
            index,
            decimal(n as nat),
        ),
        !(id is Text) && !(id matches JsonModel::Number(Some(_))) ==> item_of(index, id) is None,
{
}

/// Whether `argument` is the type that is the first argument of a generic type.
pub open spec fn has_argument(type_info: JsonModel, argument: JsonModel) -> bool {
    list_at(type_info, seq!["args"@, "angle_bracketed"@, "args"@]) matches Some(args) && args.len()
        > 0 && at_path(args[0], seq!["type"@]) == Some(argument)
}

proof fn lemma_names_of_collections()
    ensures
        is_collection("Vec"@),
        is_collection("HashSet"@),
        !is_collection("Option"@),
{
    reveal_strlit("Option");
    reveal_strlit("Vec");
    reveal_strlit("HashSet");
    assert("Option"@.len() == 6 && "Vec"@.len() == 3 && "HashSet"@.len() == 7);
    assert("HashSet"@.subrange(0, 7) =~= "HashSet"@);
}

/// A type with the path `Vec`, or with one that ends with `HashSet`, stands for a collection of
/// what its argument stands for, however that argument is written.
pub proof fn law_path_of_collection(
    type_info: JsonModel,
    start: Seq<char>,
    argument: JsonModel,
    index: Index,
)
    requires
        text_at(type_info, seq!["path"@]) == Some("Vec"@) || text_at(type_info, seq!["path"@])
            == Some(start + "HashSet"@),
        has_argument(type_info, argument),
    ensures
        struct_in_type(argument, index) matches Some((name, _)) ==> struct_in_type(
            type_info,
            index,
        ) == Some((name, true)),
{
    lemma_names_of_collections();
    law_occurrence_is_part(start + "HashSet"@, "HashSet"@);
}

/// A type whose `resolved_path` has the path `Vec`, or one that ends with `HashSet`, stands for a
/// collection of what the argument stands for, however that argument is written.
pub proof fn law_resolved_path_of_collection(
    type_info: JsonModel,
    resolved: JsonModel,
    start: Seq<char>,
    argument: JsonModel,
    index: Index,
)
    requires
        text_at(type_info, seq!["path"@]) is None,
        at_path(type_info, seq!["resolved_path"@]) == Some(resolved),
        resolved is Object,
        text_at(resolved, seq!["path"@]) == Some("Vec"@) || text_at(resolved, seq!["path"@]) == Some(
            start + "HashSet"@,
        ),
        has_argument(resolved, argument),
    ensures
        struct_in_type(argument, index) matches Some((name, _)) ==> struct_in_type(
            type_info,
            index,
        ) == Some((name, true)),
{
    lemma_names_of_collections();
    law_occurrence_is_part(start + "HashSet"@, "HashSet"@);
}

/// A type with the path `Option` stands for what its argument stands for, and is a collection if
/// and only if the argument is one.
pub proof fn law_path_of_option(type_info: JsonModel, argument: JsonModel, index: Index)
    requires
        text_at(type_info, seq!["path"@]) == Some("Option"@),
        has_argument(type_info, argument),
        struct_in_type(argument, index) is Some,
    ensures
        struct_in_type(type_info, index) == struct_in_type(argument, index),
{
    lemma_names_of_collections();
}

/// An `Option` of a collection of a struct stands for a collection of that struct, whether the type
/// of the collection and of its items has a path or a resolved path.
pub proof fn law_option_of_collection(
    option: JsonModel,
    collection: JsonModel,
    inner: JsonModel,
    start: Seq<char>,
    argument: JsonModel,
    index: Index,
    name: Seq<char>,
    flag: bool,
)
    requires
        text_at(option, seq!["path"@]) == Some("Option"@),
        has_argument(option, collection),
        inner == collection || (text_at(collection, seq!["path"@]) is None && at_path(
            collection,
            seq!["resolved_path"@],
        ) == Some(inner) && inner is Object),
        text_at(inner, seq!["path"@]) == Some("Vec"@) || text_at(inner, seq!["path"@]) == Some(
            start + "HashSet"@,
        ),
        has_argument(inner, argument),
        struct_in_type(argument, index) == Some((name, flag)),
    ensures
        struct_in_type(option, index) == Some((name, true)),
{
    if inner == collection {
        law_path_of_collection(collection, start, argument, index);
    } else {
        law_resolved_path_of_collection(collection, inner, start, argument, index);
    }
    law_path_of_option(option, collection, index);
}

/// A type whose path is neither that of a collection nor `Option` stands for the one struct of that
/// path, where it is in the index. So does one whose resolved path has such a path, or `Option`.
pub proof fn law_path_of_struct(type_info: JsonModel, path: Seq<char>, index: Index)
    requires
        path != "Vec"@,
        !exists|start: Seq<char>| path == #[trigger] (start + "HashSet"@),
        struct_exists(index, path),
    ensures
        text_at(type_info, seq!["path"@]) == Some(path) && path != "Option"@ ==> struct_in_type(
            type_info,
            index,
        ) == Some((path, false)),
        text_at(type_info, seq!["path"@]) is None && at_path(
            type_info,
            seq!["resolved_path"@],
        ) is Some && text_at(at_path(type_info, seq!["resolved_path"@])->0, seq!["path"@]) == Some(
            path,
        ) ==> struct_in_type(type_info, index) == Some((path, false)),
{
    law_occurrence_is_part(path, "HashSet"@);
    assert(!is_collection(path));
    if let Some(resolved) = at_path(type_info, seq!["resolved_path"@]) {
        if !(resolved is Object) {
            assert(text_at(resolved, seq!["path"@]) is None);
        }
    }
}

/// The name of a resolved path counts where no path gives a struct: neither that of the type, nor
/// that of its resolved path.
pub proof fn law_name_of_struct(
    type_info: JsonModel,
    resolved: JsonModel,
    name: Seq<char>,
    index: Index,
)
    requires
        text_at(type_info, seq!["path"@]) matches Some(path) ==> !struct_exists(index, path) && list_at(
            type_info,
            seq!["args"@, "angle_bracketed"@, "args"@],
        ) is None,
        at_path(type_info, seq!["resolved_path"@]) == Some(resolved),
        text_at(resolved, seq!["path"@]) matches Some(path) ==> !struct_exists(index, path) && list_at(
            resolved,
            seq!["args"@, "angle_bracketed"@, "args"@],
        ) is None,
        text_at(resolved, seq!["name"@]) == Some(name),
        struct_exists(index, name),
    ensures
        struct_in_type(type_info, index) == Some((name, false)),
{
    assert(resolved is Object);
}

/// A type stands for what its path gives, and where that gives nothing, for what its resolved path
/// gives.
pub proof fn law_resolved_path_stands_in(
    type_info: JsonModel,
    by_path: JsonModel,
    by_resolved_path: JsonModel,
    index: Index,
)
    requires
        text_at(by_path, seq!["path"@]) == text_at(type_info, seq!["path"@]),
        list_at(by_path, seq!["args"@, "angle_bracketed"@, "args"@]) == list_at(
            type_info,
            seq!["args"@, "angle_bracketed"@, "args"@],
        ),
        at_path(by_path, seq!["resolved_path"@]) is None,
        text_at(by_resolved_path, seq!["path"@]) is None,
        at_path(by_resolved_path, seq!["resolved_path"@]) == at_path(
            type_info,
            seq!["resolved_path"@],
        ),
    ensures
        struct_in_type(type_info, index) == (if struct_in_type(by_path, index) is Some {
            struct_in_type(by_path, index)
        } else {
            struct_in_type(by_resolved_path, index)
        }),
{
}

/// A resolved path stands for what its path gives, and where that gives nothing, for the struct of
/// its name.
pub proof fn law_name_stands_in(
    type_info: JsonModel,
    resolved: JsonModel,
    by_path: JsonModel,
    path_only: JsonModel,
    index: Index,
)
    requires
        text_at(type_info, seq!["path"@]) is None,
        text_at(by_path, seq!["path"@]) is None,
        at_path(type_info, seq!["resolved_path"@]) == Some(resolved),
        at_path(by_path, seq!["resolved_path"@]) == Some(path_only),
        resolved is Object,
        path_only is Object,
        text_at(path_only, seq!["path"@]) == text_at(resolved, seq!["path"@]),
        list_at(path_only, seq!["args"@, "angle_bracketed"@, "args"@]) == list_at(
            resolved,
            seq!["args"@, "angle_bracketed"@, "args"@],
        ),
        text_at(path_only, seq!["name"@]) is None,
    ensures
        struct_in_type(by_path, index) is Some ==> struct_in_type(type_info, index)
            == struct_in_type(by_path, index),
        struct_in_type(by_path, index) is None ==> struct_in_type(type_info, index) == match text_at(
            resolved,
            seq!["name"@],
        ) {
            Some(name) => if struct_exists(index, name) {
                Some((name, false))
            } else {
                None
            },
            None => None,
        },
{
}

/// A type that names no struct of the index anywhere, and has no arguments, stands for nothing.
pub proof fn law_type_without_struct(type_info: JsonModel, index: Index)
    requires
        text_at(type_info, seq!["path"@]) matches Some(path) ==> !struct_exists(index, path) && list_at(
            type_info,
            seq!["args"@, "angle_bracketed"@, "args"@],
        ) is None,
        at_path(type_info, seq!["resolved_path"@]) matches Some(resolved) ==> {
            &&& text_at(resolved, seq!["path"@]) matches Some(path) ==> !struct_exists(index, path)
                && list_at(resolved, seq!["args"@, "angle_bracketed"@, "args"@]) is None
            &&& text_at(resolved, seq!["name"@]) matches Some(name) ==> !struct_exists(index, name)
        },
    ensures
        struct_in_type(type_info, index) is None,
{
}

/// A collection of something that stands for no struct stands for none either, nor does an `Option`
/// of it, unless a resolved path says otherwise.
pub proof fn law_container_of_nothing(
    type_info: JsonModel,
    start: Seq<char>,
    argument: JsonModel,
    index: Index,
)
    requires
        text_at(type_info, seq!["path"@]) == Some("Vec"@) || text_at(type_info, seq!["path"@])
            == Some(start + "HashSet"@) || text_at(type_info, seq!["path"@]) == Some("Option"@),
        has_argument(type_info, argument),
        struct_in_type(argument, index) is None,
        at_path(type_info, seq!["resolved_path"@]) is None,
    ensures
        struct_in_type(type_info, index) is None,
{
    lemma_names_of_collections();
    law_occurrence_is_part(start + "HashSet"@, "HashSet"@);
}

/// A collection is one of what an argument stands for: that of the type, or that of its resolved
/// path.
pub proof fn law_collections_have_arguments(type_info: JsonModel, index: Index, name: Seq<char>)
    requires
        struct_in_type(type_info, index) == Some((name, true)),
    ensures
        exists|argument: JsonModel| #[trigger]
            struct_in_type(argument, index) matches Some((inner, _)) && inner == name && (
            has_argument(type_info, argument) || (at_path(
                type_info,
                seq!["resolved_path"@],
            ) matches Some(resolved) && has_argument(resolved, argument))),
{
    lemma_names_of_collections();
    if let Some(argument) = argument_of(type_info) {
        if let Some((inner, _)) = struct_in_type(argument, index) {
            assert(has_argument(type_info, argument));
        }
    }
    if let Some(resolved) = at_path(type_info, seq!["resolved_path"@]) {
        if let Some(argument) = argument_of(resolved) {
            if let Some((inner, _)) = struct_in_type(argument, index) {
                assert(has_argument(resolved, argument));
            }
        }
    }
}

/// The type of a field is the first of four places that is there.
pub proof fn law_place_of_type(field: JsonModel, index: Index)
    ensures
        match at_path(field, seq!["inner"@, "struct_field"@, "resolved_path"@]) {
            Some(type_info) => struct_in_field(field, index) == struct_in_type(type_info, index),
            None => match at_path(field, seq!["inner"@, "struct_field"@, "type"@]) {
                Some(type_info) => struct_in_field(field, index) == struct_in_type(
                    type_info,
                    index,
                ),
                None => match at_path(field, seq!["inner"@, "type"@]) {
                    Some(type_info) => struct_in_field(field, index) == struct_in_type(
                        type_info,
                        index,
                    ),
                    None => match at_path(field, seq!["type"@]) {
                        Some(type_info) => struct_in_field(field, index) == struct_in_type(
                            type_info,
                            index,
                        ),
                        None => struct_in_field(field, index) is None,
                    },
                },
            },
        },
{
}

/// What the first argument of a generic type stands for, where it has one.
pub open spec fn inside(type_info: JsonModel, index: Index) -> Option<(Seq<char>, bool)> {
    match list_at(type_info, seq!["args"@, "angle_bracketed"@, "args"@]) {
        Some(args) => if args.len() > 0 {
            match at_path(args[0], seq!["type"@]) {
                Some(argument) => struct_in_type(argument, index),
                None => None,
            }
        } else {
            None
        },
        None => None,
    }
}

/// What a type without a resolved path stands for, by its path: a collection for a collection of
/// what is inside, an `Option` for what is inside, and anything else for the struct of that path,
/// where it is in the index. Without a path it stands for nothing.
pub proof fn law_what_a_path_stands_for(type_info: JsonModel, index: Index)
    requires
        at_path(type_info, seq!["resolved_path"@]) is None,
    ensures
        struct_in_type(type_info, index) == match text_at(type_info, seq!["path"@]) {
            Some(path) => if path == "Vec"@ || exists|start: Seq<char>|
                path == #[trigger] (start + "HashSet"@) {
                match inside(type_info, index) {
                    Some((name, _)) => Some((name, true)),
                    None => None,
                }
            } else if path == "Option"@ {
                inside(type_info, index)
            } else if struct_exists(index, path) {
                Some((path, false))
            } else {
                None
            },
            None => None,
        },
{
    if let Some(path) = text_at(type_info, seq!["path"@]) {
        law_occurrence_is_part(path, "HashSet"@);
    }
}

/// What a type stands for that has a resolved path and no path of its own: a collection for a
/// collection of what is inside, anything else for the struct of that path, where it is in the
/// index. Where that gives none, the name of the resolved path counts. A resolved path that is no
/// object does not count.
pub proof fn law_what_a_resolved_path_stands_for(
    type_info: JsonModel,
    resolved: JsonModel,
    index: Index,
)
    requires
        text_at(type_info, seq!["path"@]) is None,
        at_path(type_info, seq!["resolved_path"@]) == Some(resolved),
    ensures
        ({
            let by_path = match text_at(resolved, seq!["path"@]) {
                Some(path) => if path == "Vec"@ || exists|start: Seq<char>|
                    path == #[trigger] (start + "HashSet"@) {
                    match inside(resolved, index) {
                        Some((name, _)) => Some((name, true)),
                        None => None,
                    }
                } else if struct_exists(index, path) {
                    Some((path, false))
                } else {
                    None
                },
                None => None,
            };
            if by_path is Some {
                struct_in_type(type_info, index) == by_path
            } else {
                struct_in_type(type_info, index) == match text_at(resolved, seq!["name"@]) {
                    Some(name) => if struct_exists(index, name) {
                        Some((name, false))
                    } else {
                        None
                    },
                    None => None,
                }
            }
        }),
{
    if let Some(path) = text_at(resolved, seq!["path"@]) {
        law_occurrence_is_part(path, "HashSet"@);
    }
    if !(resolved is Object) {
        assert(text_at(resolved, seq!["path"@]) is None);
        assert(text_at(resolved, seq!["name"@]) is None);
    }
}

} // verus!
