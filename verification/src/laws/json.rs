//! Laws on JSON values.

use vstd::prelude::*;

use crate::json::{
    at_path, items_model, lemma_model, list_at, member, members_model, object_at, text_at, Json,
    JsonModel,
};

verus! {

proof fn lemma_member_is_first(members: Seq<(Seq<char>, JsonModel)>, i: int, key: Seq<char>)
    requires
        0 <= i <= members.len(),
        forall|j: int| 0 <= j < i ==> (#[trigger] members[j]).0 != key,
        i < members.len() ==> members[i].0 == key,
    ensures
        member(members, key) == (if i < members.len() {
            Some(members[i].1)
        } else {
            None
        }),
    decreases members.len(),
{
    if i > 0 {
        let rest = members.drop_first();
        assert(members[0].0 != key);
        assert forall|j: int| 0 <= j < i - 1 implies (#[trigger] rest[j]).0 != key by {
            assert(rest[j] == members[j + 1]);
        }
        if i < members.len() {
            assert(rest[i - 1] == members[i]);
        }
        lemma_member_is_first(rest, i - 1, key);
    }
}

/// A key leads to the value of the first member with that name, and nowhere where no member has it.
pub proof fn law_key_leads_to_member(
    members: Seq<(Seq<char>, JsonModel)>,
    i: int,
    key: Seq<char>,
)
    requires
        0 <= i <= members.len(),
        forall|j: int| 0 <= j < i ==> (#[trigger] members[j]).0 != key,
        i < members.len() ==> members[i].0 == key,
    ensures
        at_path(JsonModel::Object(members), seq![key]) == (if i < members.len() {
            Some(members[i].1)
        } else {
            None
        }),
        member(members, key) == at_path(JsonModel::Object(members), seq![key]),
{
    lemma_member_is_first(members, i, key);
    reveal_with_fuel(at_path, 2);
    assert(seq![key].drop_first().len() == 0);
}

/// A key leads out of objects only, and no key at all leads to the value itself.
pub proof fn law_only_objects_have_members(value: JsonModel, key: Seq<char>)
    ensures
        at_path(value, seq![]) == Some(value),
        !(value is Object) ==> at_path(value, seq![key]) is None,
{
}

/// The text, the list or the object at the end of a path is what stands there, where it is one.
pub proof fn law_kind_at_the_end(
    value: JsonModel,
    path: Seq<Seq<char>>,
    text: Seq<char>,
    items: Seq<JsonModel>,
    members: Seq<(Seq<char>, JsonModel)>,
)
    ensures
        text_at(value, path) == Some(text) <==> at_path(value, path) == Some(JsonModel::Text(text)),
        list_at(value, path) == Some(items) <==> at_path(value, path) == Some(
            JsonModel::List(items),
        ),
        object_at(value, path) == Some(members) <==> at_path(value, path) == Some(
            JsonModel::Object(members),
        ),
{
}

/// A value holds what its parts hold: texts their characters, lists the items in their order,
/// objects the members in theirs.
pub proof fn law_parts_are_held(value: Json)
    ensures
        match value {
            Json::Null => value@ == JsonModel::Null,
            Json::Bool(b) => value@ == JsonModel::Bool(b),
            Json::Number(n) => value@ == JsonModel::Number(n),
            Json::Text(text) => value@ == JsonModel::Text(text@),
            Json::List(items) => value@ == JsonModel::List(
                Seq::new(items@.len(), |i: int| items@[i]@),
            ),
            Json::Object(members) => value@ == JsonModel::Object(
                Seq::new(members@.len(), |i: int| (members@[i].0@, members@[i].1@)),
            ),
        },
{
    lemma_model(value);
    match value {
        Json::List(items) => {
            assert(items_model(items@) =~= Seq::new(items@.len(), |i: int| items@[i]@));
        },
        Json::Object(members) => {
            assert(members_model(members@) =~= Seq::new(
                members@.len(),
                |i: int| (members@[i].0@, members@[i].1@),
            ));
        },
        _ => {},
    }
}

} // verus!
