//! Laws on the documentation of structs.

use vstd::prelude::*;

use crate::field::{
    field_constants, field_cuts_cleanly, field_model, field_warning_of, FieldModel,
};
use crate::item::{field_ids, item_of, Index};
use crate::json::{text_at, JsonModel};
use crate::laws::field::text_refers;
use crate::structs::{
    constants_of, docs_text, field_views, fields_of, id_cuts_cleanly,
    law_constants_come_from_fields, name_or_unknown, refers_to, struct_constants,
    struct_cuts_cleanly, struct_model, struct_view, warnings_of, StructDoc, StructModel,
};
use crate::text::view_of;

verus! {

/// The documentation of an item, or an empty text where it has none.
pub open spec fn docs_or_empty(item: JsonModel) -> Seq<char> {
    match text_at(item, seq!["docs"@]) {
        Some(docs) => docs,
        None => seq![],
    }
}

/// The name of an item, or `unknown` where it has none.
pub open spec fn name_or_default(item: JsonModel) -> Seq<char> {
    match text_at(item, seq!["name"@]) {
        Some(name) => name,
        None => "unknown"@,
    }
}

proof fn lemma_item_texts(item: JsonModel)
    ensures
        docs_text(item) == docs_or_empty(item),
        name_or_unknown(item) == name_or_default(item),
{
    reveal_strlit("");
    assert(""@ =~= seq![]);
}

proof fn lemma_fields_in_parts(index: Index, a: Seq<JsonModel>, b: Seq<JsonModel>)
    ensures
        fields_of(index, a + b) == fields_of(index, a) + fields_of(index, b),
        warnings_of(index, a + b) == warnings_of(index, a) + warnings_of(index, b),
    decreases b.len(),
{
    if b.len() == 0 {
        assert(a + b =~= a);
        assert(fields_of(index, a) + fields_of(index, b) =~= fields_of(index, a));
        assert(warnings_of(index, a) + warnings_of(index, b) =~= warnings_of(index, a));
    } else {
        lemma_fields_in_parts(index, a, b.drop_last());
        assert((a + b).drop_last() =~= a + b.drop_last());
        assert((a + b).last() == b.last());
        assert(fields_of(index, a + b) =~= fields_of(index, a) + fields_of(index, b));
        assert(warnings_of(index, a + b) =~= warnings_of(index, a) + warnings_of(index, b));
    }
}

/// Every field counts, in the order of the ids: a field whose documentation has a description or a
/// default is listed with what its documentation says, between the fields before and behind it. Any
/// other is left out.
pub proof fn law_documented_fields_are_listed(index: Index, ids: Seq<JsonModel>, i: int)
    requires
        0 <= i < ids.len(),
    ensures
        fields_of(index, ids) == fields_of(index, ids.take(i)) + match item_of(index, ids[i]) {
            Some(item) => {
                let field = field_model(docs_or_empty(item), name_or_default(item));
                if field.description.len() > 0 || field.default_value is Some {
                    seq![field]
                } else {
                    seq![]
                }
            },
            None => seq![],
        } + fields_of(index, ids.skip(i + 1)),
        fields_of(index, seq![]).len() == 0,
{
    let one = seq![ids[i]];
    assert(ids =~= ids.take(i) + (one + ids.skip(i + 1)));
    lemma_fields_in_parts(index, ids.take(i), one + ids.skip(i + 1));
    lemma_fields_in_parts(index, one, ids.skip(i + 1));
    assert(one.drop_last().len() == 0);
    reveal_with_fuel(fields_of, 2);
    if let Some(item) = item_of(index, ids[i]) {
        lemma_item_texts(item);
        let field = field_model(docs_or_empty(item), name_or_default(item));
        if field.description.len() > 0 || field.default_value is Some {
            assert(fields_of(index, one) =~= seq![field]);
        } else {
            assert(fields_of(index, one) =~= seq![]);
        }
    } else {
        assert(fields_of(index, one) =~= seq![]);
    }
    assert(fields_of(index, ids) =~= fields_of(index, ids.take(i)) + fields_of(index, one)
        + fields_of(index, ids.skip(i + 1)));
}

/// A field with a description or a default is among the fields that are listed.
pub proof fn law_documented_field_is_found(
    index: Index,
    ids: Seq<JsonModel>,
    i: int,
    item: JsonModel,
)
    requires
        0 <= i < ids.len(),
        item_of(index, ids[i]) == Some(item),
    ensures
        ({
            let field = field_model(docs_or_empty(item), name_or_default(item));
            field.description.len() > 0 || field.default_value is Some ==> fields_of(
                index,
                ids,
            ).contains(field)
        }),
{
    law_documented_fields_are_listed(index, ids, i);
    let field = field_model(docs_or_empty(item), name_or_default(item));
    if field.description.len() > 0 || field.default_value is Some {
        let n = fields_of(index, ids.take(i)).len() as int;
        assert(fields_of(index, ids)[n] == field);
    }
}

/// Every field that is listed is what the documentation of one of the ids says, and has a
/// description or a default.
pub proof fn law_listed_field_is_documented(index: Index, ids: Seq<JsonModel>, field: FieldModel)
    requires
        fields_of(index, ids).contains(field),
    ensures
        field.description.len() > 0 || field.default_value is Some,
        exists|i: int|
            0 <= i < ids.len() && (item_of(index, #[trigger] ids[i]) matches Some(item) && field
                == field_model(docs_or_empty(item), name_or_default(item))),
    decreases ids.len(),
{
    if ids.len() > 0 {
        let n = ids.len() - 1;
        let earlier = ids.drop_last();
        law_documented_fields_are_listed(index, ids, n);
        assert(ids.take(n) =~= earlier);
        assert(ids.skip(n + 1) =~= seq![]);
        let k = choose|k: int| 0 <= k < fields_of(index, ids).len() && fields_of(index, ids)[k]
            == field;
        if k < fields_of(index, earlier).len() {
            assert(fields_of(index, earlier)[k] == field);
            law_listed_field_is_documented(index, earlier, field);
            let i = choose|i: int|
                0 <= i < earlier.len() && (item_of(index, #[trigger] earlier[i]) matches Some(item)
                    && field == field_model(docs_or_empty(item), name_or_default(item)));
            assert(ids[i] == earlier[i]);
        }
    }
}

/// Every field is warned of, in the order of the ids.
pub proof fn law_fields_are_warned_of(index: Index, ids: Seq<JsonModel>, i: int)
    requires
        0 <= i < ids.len(),
    ensures
        warnings_of(index, ids) == warnings_of(index, ids.take(i)) + match item_of(index, ids[i]) {
            Some(item) => match field_warning_of(docs_or_empty(item), name_or_default(item)) {
                Some(warning) => seq![warning],
                None => seq![],
            },
            None => seq![],
        } + warnings_of(index, ids.skip(i + 1)),
        warnings_of(index, seq![]).len() == 0,
{
    let one = seq![ids[i]];
    assert(ids =~= ids.take(i) + (one + ids.skip(i + 1)));
    lemma_fields_in_parts(index, ids.take(i), one + ids.skip(i + 1));
    lemma_fields_in_parts(index, one, ids.skip(i + 1));
    assert(one.drop_last().len() == 0);
    reveal_with_fuel(warnings_of, 2);
    if let Some(item) = item_of(index, ids[i]) {
        lemma_item_texts(item);
        match field_warning_of(docs_or_empty(item), name_or_default(item)) {
            Some(warning) => {
                assert(warnings_of(index, one) =~= seq![warning]);
            },
            None => {
                assert(warnings_of(index, one) =~= seq![]);
            },
        }
    } else {
        assert(warnings_of(index, one) =~= seq![]);
    }
    assert(warnings_of(index, ids) =~= warnings_of(index, ids.take(i)) + warnings_of(index, one)
        + warnings_of(index, ids.skip(i + 1)));
}

/// The fields refer to the constants that the documentation of one of them refers to, listed or
/// not.
pub proof fn law_fields_refer_to_constants(index: Index, ids: Seq<JsonModel>, name: Seq<char>)
    ensures
        constants_of(index, ids).contains(name) <==> exists|i: int|
            0 <= i < ids.len() && (item_of(index, #[trigger] ids[i]) matches Some(item)
                && field_constants(docs_or_empty(item)).contains(name)),
{
    law_constants_come_from_fields(index, ids, name);
    if constants_of(index, ids).contains(name) {
        let i = choose|i: int| 0 <= i < ids.len() && refers_to(index, #[trigger] ids[i], name);
        lemma_item_texts(item_of(index, ids[i])->0);
        assert(item_of(index, ids[i]) is Some);
    }
    if exists|i: int|
        0 <= i < ids.len() && (item_of(index, #[trigger] ids[i]) matches Some(item)
            && field_constants(docs_or_empty(item)).contains(name)) {
        let i = choose|i: int|
            0 <= i < ids.len() && (item_of(index, #[trigger] ids[i]) matches Some(item)
                && field_constants(docs_or_empty(item)).contains(name));
        lemma_item_texts(item_of(index, ids[i])->0);
        assert(refers_to(index, ids[i], name));
    }
}

/// The documentation of a struct says its name, the documentation of the item, and all of its
/// listed fields. There is none where the item has no documentation and no field is listed.
pub proof fn law_struct_says(index: Index, name: Seq<char>, item: JsonModel)
    ensures
        ({
            let fields = fields_of(index, field_ids(item));
            let docs = text_at(item, seq!["docs"@]);
            struct_model(index, name, item) == if docs is None && fields.len() == 0 {
                None
            } else {
                Some(StructModel { name, description: docs, fields })
            }
        }),
{
}

/// A struct refers to the constants that its own documentation refers to, and to those of its
/// fields.
pub proof fn law_struct_refers_to_constants(index: Index, item: JsonModel, name: Seq<char>)
    ensures
        struct_constants(index, item).contains(name) <==> text_refers(
            text_at(item, seq!["docs"@]),
            name,
        ) || constants_of(index, field_ids(item)).contains(name),
{
}

/// The indentation in a struct can be cut off if and only if that in the documentation of each of
/// its fields can.
pub proof fn law_clean_struct_has_clean_fields(index: Index, item: JsonModel)
    ensures
        struct_cuts_cleanly(index, item) <==> forall|i: int|
            0 <= i < field_ids(item).len() ==> (item_of(
                index,
                #[trigger] field_ids(item)[i],
            ) matches Some(field) ==> field_cuts_cleanly(docs_or_empty(field))),
{
    let ids = field_ids(item);
    assert forall|i: int| 0 <= i < ids.len() implies id_cuts_cleanly(index, #[trigger] ids[i]) == (
    item_of(index, ids[i]) matches Some(field) ==> field_cuts_cleanly(docs_or_empty(field))) by {
        if let Some(field) = item_of(index, ids[i]) {
            lemma_item_texts(field);
        }
    }
    if struct_cuts_cleanly(index, item) {
        assert forall|i: int| 0 <= i < ids.len() implies (item_of(
            index,
            #[trigger] ids[i],
        ) matches Some(field) ==> field_cuts_cleanly(docs_or_empty(field))) by {
            assert(id_cuts_cleanly(index, ids[i]));
        }
    }
}

/// What the documentation of a struct says is what each of its parts says.
pub proof fn law_parts_of_struct_are_viewed(doc: StructDoc)
    ensures
        doc@.name == doc.name@,
        doc@.description == view_of(doc.description),
        doc@.fields == Seq::new(doc.fields@.len(), |i: int| doc.fields@[i]@),
        field_views(doc.fields@) == Seq::new(doc.fields@.len(), |i: int| doc.fields@[i]@),
        struct_view(Some(doc)) == Some(doc@),
        struct_view(None) is None,
{
    assert(doc@.fields =~= Seq::new(doc.fields@.len(), |i: int| doc.fields@[i]@));
}

} // verus!
