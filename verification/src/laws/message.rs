//! Laws on what is told of sections.

use vstd::prelude::*;

use crate::item::{field_ids, item_of, struct_in_field, Index};
use crate::json::{object_at, text_at, JsonModel};
use crate::message::{message_of, messages_in, messages_of};
use crate::section::find_struct;
use crate::text::occurs;

verus! {

/// Every field with a name is told of: as ignored where its documentation says so, as mapped to the
/// struct that it stands for and to its section, or else as skipped. A field without a name is not
/// told of.
pub proof fn law_fields_are_told_of(index: Index, id: JsonModel)
    ensures
        match item_of(index, id) {
            Some(item) => match text_at(item, seq!["name"@]) {
                Some(field) => {
                    let ignored = text_at(item, seq!["docs"@]) matches Some(docs) && occurs(
                        docs,
                        "@ignore"@,
                    );
                    message_of(index, id) == Some(
                        if ignored {
                            "Ignoring field '"@ + field + "' due to @ignore annotation"@
                        } else {
                            match struct_in_field(item, index) {
                                Some((name, collection)) => "Mapped field '"@ + field
                                    + "' -> struct '"@ + name + "' -> section '"@ + (if collection {
                                    seq!['[', '['] + field + seq![']', ']']
                                } else {
                                    seq!['['] + field + seq![']']
                                }) + "'"@,
                                None => {
                                    "Warning: Could not extract type information for field '"@
                                        + field + "', skipping"@
                                },
                            }
                        },
                    )
                },
                None => message_of(index, id) is None,
            },
            None => message_of(index, id) is None,
        },
{
    reveal_strlit("[");
    reveal_strlit("]");
    reveal_strlit("[[");
    reveal_strlit("]]");
    assert("["@ =~= seq!['['] && "]"@ =~= seq![']']);
    assert("[["@ =~= seq!['[', '['] && "]]"@ =~= seq![']', ']']);
}

/// The fields are told of one after the other.
pub proof fn law_messages_in_order(index: Index, ids: Seq<JsonModel>, id: JsonModel)
    ensures
        messages_of(index, seq![]).len() == 0,
        messages_of(index, ids.push(id)) == match message_of(index, id) {
            Some(message) => messages_of(index, ids).push(message),
            None => messages_of(index, ids),
        },
{
    assert(ids.push(id).drop_last() =~= ids);
}

/// The fields that are told of are those of the main struct, where there is one.
pub proof fn law_main_struct_is_told_of(rustdoc_json: JsonModel, name: Seq<char>)
    ensures
        match object_at(rustdoc_json, seq!["index"@]) {
            Some(index) => match find_struct(index, name) {
                Some(item) => messages_in(rustdoc_json, name) == messages_of(
                    index,
                    field_ids(item),
                ),
                None => messages_in(rustdoc_json, name).len() == 0,
            },
            None => messages_in(rustdoc_json, name).len() == 0,
        },
{
}

} // verus!
