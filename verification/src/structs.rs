//! The documentation of a struct: its own, and that of its fields.

use vstd::prelude::*;

use crate::constant::find_constant_references;
use crate::error::ExtractError;
use crate::field::{
    field_constants, field_cuts, field_cuts_cleanly, field_model, field_warning, field_warning_of,
    parse_field_documentation, references_in, FieldDoc, FieldModel,
};
use crate::item::{docs_of, field_ids, find_field_ids, find_item, item_name, item_of, Index};
use crate::json::{get_json_string, items_model, keys_1, members_model, Json, JsonModel};
use crate::names::{name_views, NameSet};
use crate::text::view_of;

verus! {

/// The documentation of a struct.
#[derive(Debug)]
pub struct StructDoc {
    pub name: String,
    pub description: Option<String>,
    pub fields: Vec<FieldDoc>,
}

/// What the documentation of a struct says.
pub struct StructModel {
    pub name: Seq<char>,
    pub description: Option<Seq<char>>,
    pub fields: Seq<FieldModel>,
}

/// What the documentation of each field says.
pub open spec fn field_views(fields: Seq<FieldDoc>) -> Seq<FieldModel> {
    fields.map_values(|field: FieldDoc| field@)
}

impl View for StructDoc {
    type V = StructModel;

    open spec fn view(&self) -> StructModel {
        StructModel {
            name: self.name@,
            description: view_of(self.description),
            fields: field_views(self.fields@),
        }
    }
}

/// The text of the documentation of a field.
pub open spec fn docs_text(item: JsonModel) -> Seq<char> {
    match docs_of(item) {
        Some(docs) => docs,
        None => ""@,
    }
}

/// The name of a field.
pub open spec fn name_or_unknown(item: JsonModel) -> Seq<char> {
    match item_name(item) {
        Some(name) => name,
        None => "unknown"@,
    }
}

/// What the documentation of the field with this id says.
pub open spec fn field_of(index: Index, id: JsonModel) -> Option<FieldModel> {
    match item_of(index, id) {
        Some(item) => Some(field_model(docs_text(item), name_or_unknown(item))),
        None => None,
    }
}

/// What to warn of in the documentation of the fields with these ids.
pub open spec fn warnings_of(index: Index, ids: Seq<JsonModel>) -> Seq<Seq<char>>
    decreases ids.len(),
{
    if ids.len() == 0 {
        seq![]
    } else {
        let earlier = warnings_of(index, ids.drop_last());
        match item_of(index, ids.last()) {
            Some(item) => match field_warning_of(docs_text(item), name_or_unknown(item)) {
                Some(warning) => earlier.push(warning),
                None => earlier,
            },
            None => earlier,
        }
    }
}

/// Whether the documentation of a field says enough to be listed.
pub open spec fn is_documented(field: FieldModel) -> bool {
    field.description.len() > 0 || field.default_value is Some
}

/// What the documentation of the fields with these ids says, where it says enough.
pub open spec fn fields_of(index: Index, ids: Seq<JsonModel>) -> Seq<FieldModel>
    decreases ids.len(),
{
    if ids.len() == 0 {
        seq![]
    } else {
        let earlier = fields_of(index, ids.drop_last());
        match field_of(index, ids.last()) {
            Some(field) => if is_documented(field) {
                earlier.push(field)
            } else {
                earlier
            },
            None => earlier,
        }
    }
}

/// The constants that the documentation of the fields with these ids refers to.
pub open spec fn constants_of(index: Index, ids: Seq<JsonModel>) -> Set<Seq<char>>
    decreases ids.len(),
{
    if ids.len() == 0 {
        Set::empty()
    } else {
        let earlier = constants_of(index, ids.drop_last());
        match item_of(index, ids.last()) {
            Some(item) => earlier.union(field_constants(docs_text(item))),
            None => earlier,
        }
    }
}

/// Whether the documentation of the field with this id refers to the constant `name`.
pub open spec fn refers_to(index: Index, id: JsonModel, name: Seq<char>) -> bool {
    match item_of(index, id) {
        Some(item) => field_constants(docs_text(item)).contains(name),
        None => false,
    }
}

/// Whether the indentation of every block can be cut off in the documentation of the field with
/// this id.
pub open spec fn id_cuts_cleanly(index: Index, id: JsonModel) -> bool {
    match item_of(index, id) {
        Some(item) => field_cuts_cleanly(docs_text(item)),
        None => true,
    }
}

/// Whether the indentation of every block can be cut off in the documentation of every field.
pub open spec fn struct_cuts_cleanly(index: Index, item: JsonModel) -> bool {
    forall|i: int|
        0 <= i < field_ids(item).len() ==> #[trigger] id_cuts_cleanly(index, field_ids(item)[i])
}

/// The text of the documentation of a field.
fn find_docs<'a>(item: &'a Json) -> (docs: &'a str)
    ensures
        docs@ == docs_text(item@),
{
    match get_json_string(item, &keys_1("docs")) {
        Some(docs) => docs,
        None => "",
    }
}

/// The name of a field.
fn find_name<'a>(item: &'a Json) -> (name: &'a str)
    ensures
        name@ == name_or_unknown(item@),
{
    match get_json_string(item, &keys_1("name")) {
        Some(name) => name,
        None => "unknown",
    }
}

/// Tells whether the indentation of every block can be cut off in the documentation of every
/// field.
pub fn struct_cuts(index: &Vec<(String, Json)>, struct_item: &Json) -> (yes: bool)
    ensures
        yes == struct_cuts_cleanly(members_model(index@), struct_item@),
{
    let ghost all = members_model(index@);
    if let Some(ids) = find_field_ids(struct_item) {
        let mut i: usize = 0;
        while i < ids.len()
            invariant
                i <= ids.len(),
                all == members_model(index@),
                field_ids(struct_item@) == items_model(ids@),
                forall|j: int|
                    0 <= j < i ==> #[trigger] id_cuts_cleanly(all, field_ids(struct_item@)[j]),
            decreases ids.len() - i,
        {
            let clean = match find_item(index, &ids[i]) {
                Some(item) => field_cuts(find_docs(item)),
                None => true,
            };
            proof {
                assert(clean == id_cuts_cleanly(all, field_ids(struct_item@)[i as int]));
            }
            if !clean {
                return false;
            }
            i = i + 1;
        }
    }
    true
}

/// Reads the documentation of the fields of a struct, and the constants that it refers to. A field
/// without description and default is left out.
pub fn extract_struct_fields(index: &Vec<(String, Json)>, struct_item: &Json) -> (result: Result<
    (Vec<FieldDoc>, NameSet),
    ExtractError,
>)
    requires
        struct_cuts_cleanly(members_model(index@), struct_item@),
    ensures
        match result {
            Ok((fields, constants)) => {
                let ids = field_ids(struct_item@);
                &&& field_views(fields@) == fields_of(members_model(index@), ids)
                &&& constants.wf()
                &&& constants@ == constants_of(members_model(index@), ids)
            },
            Err(_) => false,
        },
{
    let ghost all = members_model(index@);
    let mut fields: Vec<FieldDoc> = Vec::new();
    let mut constants = NameSet::new();
    proof {
        assert(field_views(fields@) =~= seq![]);
    }
    if let Some(ids) = find_field_ids(struct_item) {
        let ghost wanted = items_model(ids@);
        let mut i: usize = 0;
        proof {
            assert(wanted.take(0).len() == 0);
        }
        while i < ids.len()
            invariant
                i <= ids.len(),
                all == members_model(index@),
                wanted == items_model(ids@),
                wanted == field_ids(struct_item@),
                struct_cuts_cleanly(all, struct_item@),
                field_views(fields@) == fields_of(all, wanted.take(i as int)),
                constants.wf(),
                constants@ == constants_of(all, wanted.take(i as int)),
            decreases ids.len() - i,
        {
            proof {
                assert(wanted.take(i + 1).drop_last() =~= wanted.take(i as int));
                assert(wanted.take(i + 1).last() == wanted[i as int]);
                assert(id_cuts_cleanly(all, field_ids(struct_item@)[i as int]));
            }
            if let Some(item) = find_item(index, &ids[i]) {
                let (field, referenced) = parse_field_documentation(
                    find_docs(item),
                    find_name(item),
                )?;
                constants.extend(referenced);
                if !field.description.as_str().is_empty() || field.default_value.is_some() {
                    let ghost earlier = fields@;
                    let ghost model = field@;
                    fields.push(field);
                    proof {
                        assert(field_views(fields@) =~= field_views(earlier).push(model));
                    }
                }
            }
            i = i + 1;
        }
        proof {
            assert(wanted.take(i as int) =~= wanted);
        }
    }
    Ok((fields, constants))
}

/// Tells what to warn of in the documentation of the fields of a struct.
pub fn struct_warnings(index: &Vec<(String, Json)>, struct_item: &Json) -> (warnings: Vec<String>)
    requires
        struct_cuts_cleanly(members_model(index@), struct_item@),
    ensures
        name_views(warnings@) == warnings_of(members_model(index@), field_ids(struct_item@)),
{
    let ghost all = members_model(index@);
    let mut warnings: Vec<String> = Vec::new();
    proof {
        assert(name_views(warnings@) =~= seq![]);
    }
    if let Some(ids) = find_field_ids(struct_item) {
        let ghost wanted = items_model(ids@);
        let mut i: usize = 0;
        proof {
            assert(wanted.take(0).len() == 0);
        }
        while i < ids.len()
            invariant
                i <= ids.len(),
                all == members_model(index@),
                wanted == items_model(ids@),
                wanted == field_ids(struct_item@),
                struct_cuts_cleanly(all, struct_item@),
                name_views(warnings@) == warnings_of(all, wanted.take(i as int)),
            decreases ids.len() - i,
        {
            proof {
                assert(wanted.take(i + 1).drop_last() =~= wanted.take(i as int));
                assert(wanted.take(i + 1).last() == wanted[i as int]);
                assert(id_cuts_cleanly(all, field_ids(struct_item@)[i as int]));
            }
            if let Some(item) = find_item(index, &ids[i]) {
                if let Some(warning) = field_warning(find_docs(item), find_name(item)) {
                    let ghost earlier = warnings@;
                    let ghost added = warning@;
                    warnings.push(warning);
                    proof {
                        assert(name_views(warnings@) =~= name_views(earlier).push(added));
                    }
                }
            }
            i = i + 1;
        }
        proof {
            assert(wanted.take(i as int) =~= wanted);
        }
    }
    warnings
}

/// What the documentation of a struct says, unless it says nothing.
pub open spec fn struct_model(index: Index, name: Seq<char>, item: JsonModel) -> Option<
    StructModel,
> {
    let fields = fields_of(index, field_ids(item));
    if fields.len() > 0 || docs_of(item) is Some {
        Some(StructModel { name, description: docs_of(item), fields })
    } else {
        None
    }
}

/// The constants that the documentation of a struct and of its fields refers to.
pub open spec fn struct_constants(index: Index, item: JsonModel) -> Set<Seq<char>> {
    references_in(docs_of(item)).union(constants_of(index, field_ids(item)))
}

/// What the documentation says, where there is one.
pub open spec fn struct_view(doc: Option<StructDoc>) -> Option<StructModel> {
    match doc {
        Some(doc) => Some(doc@),
        None => None,
    }
}

/// Reads the documentation of the struct `struct_name`, and the constants that it refers to.
pub fn extract_struct_from_rustdoc_index(
    index: &Vec<(String, Json)>,
    struct_name: &str,
    struct_item: &Json,
) -> (result: Result<(Option<StructDoc>, NameSet), ExtractError>)
    requires
        struct_cuts_cleanly(members_model(index@), struct_item@),
    ensures
        match result {
            Ok((doc, constants)) => {
                &&& struct_view(doc) == struct_model(
                    members_model(index@),
                    struct_name@,
                    struct_item@,
                )
                &&& constants.wf()
                &&& constants@ == struct_constants(members_model(index@), struct_item@)
            },
            Err(_) => false,
        },
{
    let mut constants = NameSet::new();
    let description: Option<String> = match get_json_string(struct_item, &keys_1("docs")) {
        Some(docs) => {
            constants.extend(find_constant_references(docs));
            Some(docs.to_owned())
        },
        None => None,
    };
    proof {
        assert(constants@ =~= references_in(docs_of(struct_item@)));
    }
    let (fields, referenced) = extract_struct_fields(index, struct_item)?;
    constants.extend(referenced);
    if fields.len() > 0 || description.is_some() {
        let doc = StructDoc { name: struct_name.to_owned(), description, fields };
        Ok((Some(doc), constants))
    } else {
        Ok((None, constants))
    }
}

/// Every field that is listed has a description or a default.
pub proof fn law_listed_fields_are_documented(index: Index, ids: Seq<JsonModel>)
    ensures
        forall|i: int|
            0 <= i < fields_of(index, ids).len() ==> is_documented(
                #[trigger] fields_of(index, ids)[i],
            ),
    decreases ids.len(),
{
    if ids.len() > 0 {
        let earlier = fields_of(index, ids.drop_last());
        law_listed_fields_are_documented(index, ids.drop_last());
        assert forall|i: int| 0 <= i < fields_of(index, ids).len() implies is_documented(
            #[trigger] fields_of(index, ids)[i],
        ) by {
            if i < earlier.len() {
                assert(fields_of(index, ids)[i] == earlier[i]);
            }
        }
    }
}

/// The constants of a struct are those that the documentation of one of its fields refers to.
pub proof fn law_constants_come_from_fields(index: Index, ids: Seq<JsonModel>, name: Seq<char>)
    ensures
        constants_of(index, ids).contains(name) <==> exists|i: int|
            0 <= i < ids.len() && refers_to(index, #[trigger] ids[i], name),
    decreases ids.len(),
{
    if ids.len() > 0 {
        let earlier = ids.drop_last();
        law_constants_come_from_fields(index, earlier, name);
        if exists|i: int| 0 <= i < earlier.len() && refers_to(index, #[trigger] earlier[i], name) {
            let i = choose|i: int|
                0 <= i < earlier.len() && refers_to(index, #[trigger] earlier[i], name);
            assert(refers_to(index, ids[i], name));
        }
        assert(ids[ids.len() - 1] == ids.last());
        if exists|i: int| 0 <= i < ids.len() && refers_to(index, #[trigger] ids[i], name) {
            let i = choose|i: int| 0 <= i < ids.len() && refers_to(index, #[trigger] ids[i], name);
            if i < earlier.len() {
                assert(refers_to(index, earlier[i], name));
            }
        }
    }
}

} // verus!
