//! The documentation of a configuration file: the structs that describe it, the constants that they
//! refer to, and its sections.

use vstd::prelude::*;

use crate::constant::{resolve_constant_reference, resolved};
use crate::error::ExtractError;
use crate::item::{field_ids, is_struct, is_struct_named, item_name, struct_exists, Index};
use crate::json::{
    get_json_object, get_json_string, items_model, keys_1, keys_2, members_model, object_at, Json,
    JsonModel,
};
use crate::names::{name_views, NameMap, NameSet};
use crate::section::{law_section_structs_exist, section_structs, sections_of};
use crate::structs::{
    extract_struct_from_rustdoc_index, struct_constants, struct_cuts, struct_cuts_cleanly,
    struct_model, struct_warnings, warnings_of, StructDoc, StructModel,
};
use crate::text::{same, view_of};

verus! {

/// The documentation of a configuration file.
#[derive(Debug)]
pub struct ConfigDocs {
    pub structs: Vec<StructDoc>,
    /// The value of each constant that the documentation refers to, where it is known.
    pub referenced_constants: NameMap<Option<String>>,
    /// The struct that describes each section.
    pub section_to_struct_mapping: NameMap<String>,
}

/// What the documentation of each struct says.
pub open spec fn struct_views(structs: Seq<StructDoc>) -> Seq<StructModel> {
    structs.map_values(|doc: StructDoc| doc@)
}

/// The names of the structs to document, where they are limited.
pub open spec fn target_views(targets: Option<Vec<String>>) -> Option<Seq<Seq<char>>> {
    match targets {
        Some(targets) => Some(name_views(targets@)),
        None => None,
    }
}

/// Whether an item is a struct to document.
pub open spec fn is_wanted(item: JsonModel, targets: Option<Seq<Seq<char>>>) -> bool {
    match item_name(item) {
        Some(name) => is_struct(item) && (targets matches Some(targets) ==> targets.contains(name)),
        None => false,
    }
}

/// What the documentation of the structs to document among `items` says.
pub open spec fn structs_in(
    index: Index,
    items: Index,
    targets: Option<Seq<Seq<char>>>,
) -> Seq<StructModel>
    decreases items.len(),
{
    if items.len() == 0 {
        seq![]
    } else {
        let earlier = structs_in(index, items.drop_last(), targets);
        let item = items.last().1;
        if is_wanted(item, targets) {
            match struct_model(index, item_name(item)->0, item) {
                Some(doc) => earlier.push(doc),
                None => earlier,
            }
        } else {
            earlier
        }
    }
}

/// The constants that the documentation of the structs to document among `items` refers to.
pub open spec fn constants_in(
    index: Index,
    items: Index,
    targets: Option<Seq<Seq<char>>>,
) -> Set<Seq<char>>
    decreases items.len(),
{
    if items.len() == 0 {
        Set::empty()
    } else {
        let earlier = constants_in(index, items.drop_last(), targets);
        let item = items.last().1;
        if is_wanted(item, targets) {
            earlier.union(struct_constants(index, item))
        } else {
            earlier
        }
    }
}

/// What to warn of in the documentation of the structs to document among `items`.
pub open spec fn warnings_in(
    index: Index,
    items: Index,
    targets: Option<Seq<Seq<char>>>,
) -> Seq<Seq<char>>
    decreases items.len(),
{
    if items.len() == 0 {
        seq![]
    } else {
        let earlier = warnings_in(index, items.drop_last(), targets);
        let item = items.last().1;
        if is_wanted(item, targets) {
            earlier + warnings_of(index, field_ids(item))
        } else {
            earlier
        }
    }
}

/// Whether the indentation of every block can be cut off in the documentation of every struct to
/// document.
pub open spec fn index_cuts_cleanly(index: Index, targets: Option<Seq<Seq<char>>>) -> bool {
    forall|i: int|
        0 <= i < index.len() && is_wanted((#[trigger] index[i]).1, targets) ==> struct_cuts_cleanly(
            index,
            index[i].1,
        )
}

/// Whether the indentation of every block can be cut off in the documentation that is to be read.
pub open spec fn config_cuts_cleanly(
    rustdoc_json: JsonModel,
    targets: Option<Seq<Seq<char>>>,
) -> bool {
    match object_at(rustdoc_json, seq!["index"@]) {
        Some(index) => index_cuts_cleanly(index, targets),
        None => true,
    }
}

/// Tells whether `name` is one of the names.
fn listed(names: &Vec<String>, name: &str) -> (yes: bool)
    ensures
        yes == name_views(names@).contains(name@),
{
    let ghost all = name_views(names@);
    let mut i: usize = 0;
    while i < names.len()
        invariant
            i <= names.len(),
            all == name_views(names@),
            forall|j: int| 0 <= j < i ==> #[trigger] all[j] != name@,
        decreases names.len() - i,
    {
        if same(names[i].as_str(), name) {
            proof {
                assert(all[i as int] == name@);
            }
            return true;
        }
        i = i + 1;
    }
    false
}

/// The name of an item that is a struct to document.
fn wanted_name<'a>(item: &'a Json, targets: &Option<Vec<String>>) -> (name: Option<&'a str>)
    ensures
        match name {
            Some(name) => is_wanted(item@, target_views(*targets)) && item_name(item@) == Some(
                name@,
            ),
            None => !is_wanted(item@, target_views(*targets)),
        },
{
    match get_json_string(item, &keys_1("name")) {
        Some(name) => {
            if get_json_object(item, &keys_2("inner", "struct")).is_none() {
                return None;
            }
            match targets {
                Some(targets) => if listed(targets, name) {
                    Some(name)
                } else {
                    None
                },
                None => Some(name),
            }
        },
        None => None,
    }
}

/// Tells whether the indentation of every block can be cut off in the documentation that is to be
/// read.
pub fn config_cuts(rustdoc_json: &Json, target_structs: &Option<Vec<String>>) -> (yes: bool)
    ensures
        yes == config_cuts_cleanly(rustdoc_json@, target_views(*target_structs)),
{
    if let Some(index) = get_json_object(rustdoc_json, &keys_1("index")) {
        let ghost all = members_model(index@);
        let mut i: usize = 0;
        while i < index.len()
            invariant
                i <= index.len(),
                all == members_model(index@),
                object_at(rustdoc_json@, seq!["index"@]) == Some(all),
                forall|j: int|
                    0 <= j < i && is_wanted((#[trigger] all[j]).1, target_views(*target_structs))
                        ==> struct_cuts_cleanly(all, all[j].1),
            decreases index.len() - i,
        {
            let item = &index[i].1;
            proof {
                assert(all[i as int].1 == item@);
            }
            if wanted_name(item, target_structs).is_some() && !struct_cuts(index, item) {
                return false;
            }
            i = i + 1;
        }
    }
    true
}

/// Tells what to warn of in the documentation that is to be read.
pub fn config_warnings(rustdoc_json: &Json, target_structs: &Option<Vec<String>>) -> (warnings: Vec<
    String,
>)
    requires
        config_cuts_cleanly(rustdoc_json@, target_views(*target_structs)),
    ensures
        name_views(warnings@) == match object_at(rustdoc_json@, seq!["index"@]) {
            Some(index) => warnings_in(index, index, target_views(*target_structs)),
            None => seq![],
        },
{
    let mut warnings: Vec<String> = Vec::new();
    proof {
        assert(name_views(warnings@) =~= seq![]);
    }
    if let Some(index) = get_json_object(rustdoc_json, &keys_1("index")) {
        let ghost all = members_model(index@);
        let ghost targets = target_views(*target_structs);
        let mut i: usize = 0;
        proof {
            assert(all.take(0).len() == 0);
        }
        while i < index.len()
            invariant
                i <= index.len(),
                all == members_model(index@),
                targets == target_views(*target_structs),
                index_cuts_cleanly(all, targets),
                name_views(warnings@) == warnings_in(all, all.take(i as int), targets),
            decreases index.len() - i,
        {
            let item = &index[i].1;
            proof {
                assert(all.take(i + 1).drop_last() =~= all.take(i as int));
                assert(all.take(i + 1).last() == all[i as int]);
                assert(all[i as int].1 == item@);
            }
            if wanted_name(item, target_structs).is_some() {
                let mut own = struct_warnings(index, item);
                let ghost earlier = warnings@;
                let ghost added = own@;
                warnings.append(&mut own);
                proof {
                    assert(name_views(warnings@) =~= name_views(earlier) + name_views(added));
                }
            }
            i = i + 1;
        }
        proof {
            assert(all.take(i as int) =~= all);
        }
    }
    warnings
}

/// The value of each of the names.
fn resolve_all(
    names: NameSet,
    index: &Vec<(String, Json)>,
    additional_crates: &Vec<Json>,
) -> (values: NameMap<Option<String>>)
    ensures
        values.wf(),
        values@.dom() == names@,
        forall|name: Seq<char>| #[trigger]
            names@.contains(name) ==> view_of(values@[name]) == resolved(
                members_model(index@),
                items_model(additional_crates@),
                name,
            ),
{
    let ghost all = name_views(names.names@);
    let mut values: NameMap<Option<String>> = NameMap::new();
    let mut i: usize = 0;
    proof {
        assert(values@.dom() =~= all.take(0).to_set());
    }
    while i < names.names.len()
        invariant
            i <= names.names.len(),
            all == name_views(names.names@),
            values.wf(),
            values@.dom() == all.take(i as int).to_set(),
            forall|name: Seq<char>| #[trigger]
                values@.contains_key(name) ==> view_of(values@[name]) == resolved(
                    members_model(index@),
                    items_model(additional_crates@),
                    name,
                ),
        decreases names.names.len() - i,
    {
        let name = &names.names[i];
        let value = resolve_constant_reference(name.as_str(), index, additional_crates);
        values.insert(name.clone(), value);
        proof {
            all.take(i as int).lemma_push_to_set_commute(all[i as int]);
            assert(all.take(i + 1) =~= all.take(i as int).push(all[i as int]));
        }
        i = i + 1;
    }
    proof {
        assert(all.take(i as int) =~= all);
        assert forall|name: Seq<char>| #[trigger] names@.contains(name) implies view_of(
            values@[name],
        ) == resolved(members_model(index@), items_model(additional_crates@), name) by {
            assert(values@.contains_key(name));
        }
    }
    values
}

/// Reads the documentation of the structs of the index, limited to `target_structs` where these are
/// given, and looks up the constants that it refers to.
pub fn extract_config_docs_from_rustdoc(
    rustdoc_json: &Json,
    target_structs: &Option<Vec<String>>,
    section_to_struct_mapping: NameMap<String>,
    additional_crates: &Vec<Json>,
) -> (result: Result<ConfigDocs, ExtractError>)
    requires
        config_cuts_cleanly(rustdoc_json@, target_views(*target_structs)),
    ensures
        match object_at(rustdoc_json@, seq!["index"@]) {
            None => result == Err::<ConfigDocs, _>(ExtractError::MissingIndexField),
            Some(index) => result matches Ok(docs) && {
                let targets = target_views(*target_structs);
                let constants = docs.referenced_constants;
                &&& struct_views(docs.structs@) == structs_in(index, index, targets)
                &&& constants.wf()
                &&& constants@.dom() == constants_in(index, index, targets)
                &&& forall|name: Seq<char>| #[trigger]
                    constants@.contains_key(name) ==> view_of(constants@[name]) == resolved(
                        index,
                        items_model(additional_crates@),
                        name,
                    )
                &&& docs.section_to_struct_mapping == section_to_struct_mapping
            },
        },
{
    let index = match get_json_object(rustdoc_json, &keys_1("index")) {
        Some(index) => index,
        None => {
            return Err(ExtractError::MissingIndexField);
        },
    };
    let ghost all = members_model(index@);
    let ghost targets = target_views(*target_structs);
    let mut structs: Vec<StructDoc> = Vec::new();
    let mut constants = NameSet::new();
    let mut i: usize = 0;
    proof {
        assert(all.take(0).len() == 0);
        assert(struct_views(structs@) =~= seq![]);
    }
    while i < index.len()
        invariant
            i <= index.len(),
            all == members_model(index@),
            targets == target_views(*target_structs),
            index_cuts_cleanly(all, targets),
            struct_views(structs@) == structs_in(all, all.take(i as int), targets),
            constants.wf(),
            constants@ == constants_in(all, all.take(i as int), targets),
        decreases index.len() - i,
    {
        let item = &index[i].1;
        proof {
            assert(all.take(i + 1).drop_last() =~= all.take(i as int));
            assert(all.take(i + 1).last() == all[i as int]);
            assert(all[i as int].1 == item@);
        }
        if let Some(name) = wanted_name(item, target_structs) {
            let (doc, referenced) = extract_struct_from_rustdoc_index(index, name, item)?;
            constants.extend(referenced);
            if let Some(doc) = doc {
                let ghost earlier = structs@;
                let ghost model = doc@;
                structs.push(doc);
                proof {
                    assert(struct_views(structs@) =~= struct_views(earlier).push(model));
                }
            }
        }
        i = i + 1;
    }
    proof {
        assert(all.take(i as int) =~= all);
    }
    let referenced_constants = resolve_all(constants, index, additional_crates);
    Ok(ConfigDocs { structs, referenced_constants, section_to_struct_mapping })
}

/// Every struct that is documented is a struct of the index, and one of the targets where these are
/// given.
pub proof fn law_documented_structs_are_wanted(
    index: Index,
    items: Index,
    targets: Option<Seq<Seq<char>>>,
)
    ensures
        forall|i: int|
            0 <= i < structs_in(index, items, targets).len() ==> {
                let name = (#[trigger] structs_in(index, items, targets)[i]).name;
                &&& struct_exists(items, name)
                &&& targets matches Some(targets) ==> targets.contains(name)
            },
    decreases items.len(),
{
    if items.len() > 0 {
        let earlier = structs_in(index, items.drop_last(), targets);
        law_documented_structs_are_wanted(index, items.drop_last(), targets);
        assert forall|i: int| 0 <= i < structs_in(index, items, targets).len() implies {
            let name = (#[trigger] structs_in(index, items, targets)[i]).name;
            &&& struct_exists(items, name)
            &&& targets matches Some(targets) ==> targets.contains(name)
        } by {
            let name = structs_in(index, items, targets)[i].name;
            if i < earlier.len() {
                assert(earlier[i].name == name);
                let j = choose|j: int|
                    0 <= j < items.len() - 1 && is_struct_named(
                        (#[trigger] items.drop_last()[j]).1,
                        name,
                    );
                assert(is_struct_named(items[j].1, name));
            } else {
                assert(is_struct_named(items[items.len() - 1].1, name));
            }
        }
    }
}

/// Every struct to document is documented, if there is anything to say of it.
pub proof fn law_wanted_structs_are_documented(
    index: Index,
    items: Index,
    targets: Option<Seq<Seq<char>>>,
    i: int,
)
    requires
        0 <= i < items.len(),
        is_wanted(items[i].1, targets),
    ensures
        struct_model(index, item_name(items[i].1)->0, items[i].1) matches Some(doc) ==> structs_in(
            index,
            items,
            targets,
        ).contains(doc),
        struct_constants(index, items[i].1).subset_of(constants_in(index, items, targets)),
    decreases items.len(),
{
    let now = structs_in(index, items, targets);
    let earlier = structs_in(index, items.drop_last(), targets);
    if i < items.len() - 1 {
        law_wanted_structs_are_documented(index, items.drop_last(), targets, i);
        if let Some(doc) = struct_model(index, item_name(items[i].1)->0, items[i].1) {
            let j = choose|j: int| 0 <= j < earlier.len() && earlier[j] == doc;
            assert(now[j] == doc);
        }
    } else if let Some(doc) = struct_model(index, item_name(items[i].1)->0, items[i].1) {
        assert(now[now.len() - 1] == doc);
    }
}

/// Without a target nothing is documented.
pub proof fn law_no_target_no_struct(index: Index, items: Index)
    ensures
        structs_in(index, items, Some(seq![])).len() == 0,
        constants_in(index, items, Some(seq![])).is_empty(),
    decreases items.len(),
{
    if items.len() > 0 {
        law_no_target_no_struct(index, items.drop_last());
    }
}

/// Where the targets are the structs that describe the sections, every one of them is a struct to
/// document.
pub proof fn law_section_structs_are_wanted(
    index: Index,
    ids: Seq<JsonModel>,
    targets: Seq<Seq<char>>,
    name: Seq<char>,
)
    requires
        targets.to_set() == section_structs(sections_of(index, ids)),
        targets.contains(name),
    ensures
        exists|i: int|
            0 <= i < index.len() && is_wanted((#[trigger] index[i]).1, Some(targets)) && item_name(
                index[i].1,
            ) == Some(name),
{
    law_section_structs_exist(index, ids);
    assert(targets.to_set().contains(name));
    let i = choose|i: int| 0 <= i < index.len() && is_struct_named((#[trigger] index[i]).1, name);
    assert(is_wanted(index[i].1, Some(targets)));
}

} // verus!
