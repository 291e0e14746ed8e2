//! JSON values: what they hold, how they are read from text, and how to walk through them.

use vstd::prelude::*;

use crate::error::ExtractError;
use crate::text::{same, views};

verus! {

/// What a JSON value holds. Of a number only its value as an unsigned integer of 64 bits counts,
/// where it has one. The members of an object stand in the order in which they are walked through.
pub enum JsonModel {
    Null,
    Bool(bool),
    Number(Option<u64>),
    Text(Seq<char>),
    List(Seq<JsonModel>),
    Object(Seq<(Seq<char>, JsonModel)>),
}

/// A JSON value.
#[derive(Debug)]
pub enum Json {
    Null,
    Bool(bool),
    Number(Option<u64>),
    Text(String),
    List(Vec<Json>),
    Object(Vec<(String, Json)>),
}

impl Json {
    /// What the value holds.
    pub open spec fn model(self) -> JsonModel
        decreases self,
    {
        match self {
            Json::Null => JsonModel::Null,
            Json::Bool(b) => JsonModel::Bool(b),
            Json::Number(n) => JsonModel::Number(n),
            Json::Text(text) => JsonModel::Text(text@),
            Json::List(items) => JsonModel::List(
                Seq::new(
                    items@.len(),
                    |i: int|
                        if 0 <= i < items@.len() {
                            items@[i].model()
                        } else {
                            JsonModel::Null
                        },
                ),
            ),
            Json::Object(members) => JsonModel::Object(
                Seq::new(
                    members@.len(),
                    |i: int|
                        if 0 <= i < members@.len() {
                            (members@[i].0@, members@[i].1.model())
                        } else {
                            (seq![], JsonModel::Null)
                        },
                ),
            ),
        }
    }
}

impl View for Json {
    type V = JsonModel;

    open spec fn view(&self) -> JsonModel {
        self.model()
    }
}

/// What the members of an object hold.
pub open spec fn members_model(members: Seq<(String, Json)>) -> Seq<(Seq<char>, JsonModel)> {
    Seq::new(members.len(), |i: int| (members[i].0@, members[i].1@))
}

/// What the items of a list hold.
pub open spec fn items_model(items: Seq<Json>) -> Seq<JsonModel> {
    Seq::new(items.len(), |i: int| items[i]@)
}

pub(crate) proof fn lemma_model(value: Json)
    ensures
        value matches Json::List(items) ==> value@ == JsonModel::List(items_model(items@)),
        value matches Json::Object(members) ==> value@ == JsonModel::Object(
            members_model(members@),
        ),
{
    match value {
        Json::List(items) => {
            assert(value@->List_0 =~= items_model(items@));
        },
        Json::Object(members) => {
            assert(value@->Object_0 =~= members_model(members@));
        },
        _ => {},
    }
}

/// The value of the first member with the name `key`.
pub open spec fn member(members: Seq<(Seq<char>, JsonModel)>, key: Seq<char>) -> Option<JsonModel>
    decreases members.len(),
{
    if members.len() == 0 {
        None
    } else if members[0].0 == key {
        Some(members[0].1)
    } else {
        member(members.drop_first(), key)
    }
}

/// The value of the member `key` of an object. Other values have none.
pub open spec fn at_key(value: JsonModel, key: Seq<char>) -> Option<JsonModel> {
    match value {
        JsonModel::Object(members) => member(members, key),
        _ => None,
    }
}

/// The value that is reached from `value` by one key after the other.
pub open spec fn at_path(value: JsonModel, path: Seq<Seq<char>>) -> Option<JsonModel>
    decreases path.len(),
{
    if path.len() == 0 {
        Some(value)
    } else {
        match at_key(value, path[0]) {
            Some(inner) => at_path(inner, path.drop_first()),
            None => None,
        }
    }
}

/// The text at the end of the path.
pub open spec fn text_at(value: JsonModel, path: Seq<Seq<char>>) -> Option<Seq<char>> {
    match at_path(value, path) {
        Some(JsonModel::Text(text)) => Some(text),
        _ => None,
    }
}

/// The list at the end of the path.
pub open spec fn list_at(value: JsonModel, path: Seq<Seq<char>>) -> Option<Seq<JsonModel>> {
    match at_path(value, path) {
        Some(JsonModel::List(items)) => Some(items),
        _ => None,
    }
}

/// The members of the object at the end of the path.
pub open spec fn object_at(value: JsonModel, path: Seq<Seq<char>>) -> Option<
    Seq<(Seq<char>, JsonModel)>,
> {
    match at_path(value, path) {
        Some(JsonModel::Object(members)) => Some(members),
        _ => None,
    }
}

/// The value of the member `key`.
pub fn get_member<'a>(members: &'a Vec<(String, Json)>, key: &str) -> (value: Option<&'a Json>)
    ensures
        match value {
            Some(inner) => member(members_model(members@), key@) == Some(inner@),
            None => member(members_model(members@), key@) is None,
        },
{
    let ghost all = members_model(members@);
    let mut i: usize = 0;
    proof {
        assert(all.skip(0) =~= all);
    }
    while i < members.len()
        invariant
            i <= members.len(),
            all == members_model(members@),
            member(all, key@) == member(all.skip(i as int), key@),
        decreases members.len() - i,
    {
        proof {
            assert(all.skip(i as int)[0] == all[i as int]);
            assert(all.skip(i as int).drop_first() =~= all.skip(i + 1));
        }
        if same(members[i].0.as_str(), key) {
            return Some(&members[i].1);
        }
        i = i + 1;
    }
    None
}

/// A path of one key.
pub(crate) fn keys_1<'a>(a: &'a str) -> (path: [&'a str; 1])
    ensures
        views(path@) == seq![a@],
{
    let path: [&'a str; 1] = [a];
    proof {
        assert(views(path@) =~= seq![a@]);
    }
    path
}

/// A path of two keys.
pub(crate) fn keys_2<'a>(a: &'a str, b: &'a str) -> (path: [&'a str; 2])
    ensures
        views(path@) == seq![a@, b@],
{
    let path: [&'a str; 2] = [a, b];
    proof {
        assert(views(path@) =~= seq![a@, b@]);
    }
    path
}

/// A path of three keys.
pub(crate) fn keys_3<'a>(a: &'a str, b: &'a str, c: &'a str) -> (path: [&'a str; 3])
    ensures
        views(path@) == seq![a@, b@, c@],
{
    let path: [&'a str; 3] = [a, b, c];
    proof {
        assert(views(path@) =~= seq![a@, b@, c@]);
    }
    path
}

/// A path of five keys.
pub(crate) fn keys_5<'a>(a: &'a str, b: &'a str, c: &'a str, d: &'a str, e: &'a str) -> (path: [
    &'a str;
    5])
    ensures
        views(path@) == seq![a@, b@, c@, d@, e@],
{
    let path: [&'a str; 5] = [a, b, c, d, e];
    proof {
        assert(views(path@) =~= seq![a@, b@, c@, d@, e@]);
    }
    path
}

/// Walks through nested objects by one key after the other.
pub fn get_json_path<'a>(value: &'a Json, path: &[&str]) -> (found: Option<&'a Json>)
    ensures
        match found {
            Some(inner) => at_path(value@, views(path@)) == Some(inner@),
            None => at_path(value@, views(path@)) is None,
        },
{
    let ghost keys = views(path@);
    let mut current: &'a Json = value;
    let mut i: usize = 0;
    proof {
        assert(keys.skip(0) =~= keys);
    }
    while i < path.len()
        invariant
            i <= path.len(),
            keys == views(path@),
            at_path(value@, keys) == at_path(current@, keys.skip(i as int)),
        decreases path.len() - i,
    {
        proof {
            assert(keys.skip(i as int)[0] == path@[i as int]@);
            assert(keys.skip(i as int).drop_first() =~= keys.skip(i + 1));
            lemma_model(*current);
        }
        match current {
            Json::Object(members) => match get_member(members, path[i]) {
                Some(inner) => {
                    current = inner;
                },
                None => {
                    return None;
                },
            },
            _ => {
                return None;
            },
        }
        i = i + 1;
    }
    proof {
        assert(keys.skip(i as int).len() == 0);
    }
    Some(current)
}

/// Walks to a list.
pub fn get_json_array<'a>(value: &'a Json, path: &[&str]) -> (found: Option<&'a Vec<Json>>)
    ensures
        match found {
            Some(items) => list_at(value@, views(path@)) == Some(items_model(items@)),
            None => list_at(value@, views(path@)) is None,
        },
{
    match get_json_path(value, path) {
        Some(inner) => {
            proof {
                lemma_model(*inner);
            }
            match inner {
                Json::List(items) => Some(items),
                _ => None,
            }
        },
        None => None,
    }
}

/// Walks to an object.
pub fn get_json_object<'a>(value: &'a Json, path: &[&str]) -> (found: Option<
    &'a Vec<(String, Json)>,
>)
    ensures
        match found {
            Some(members) => object_at(value@, views(path@)) == Some(members_model(members@)),
            None => object_at(value@, views(path@)) is None,
        },
{
    match get_json_path(value, path) {
        Some(inner) => {
            proof {
                lemma_model(*inner);
            }
            match inner {
                Json::Object(members) => Some(members),
                _ => None,
            }
        },
        None => None,
    }
}

/// Walks to a text.
pub fn get_json_string<'a>(value: &'a Json, path: &[&str]) -> (found: Option<&'a str>)
    ensures
        match found {
            Some(text) => text_at(value@, views(path@)) == Some(text@),
            None => text_at(value@, views(path@)) is None,
        },
{
    match get_json_path(value, path) {
        Some(inner) => match inner {
            Json::Text(text) => Some(text.as_str()),
            _ => None,
        },
        None => None,
    }
}

/// The outside type of a parsed JSON text.
#[verifier::external_type_specification]
#[verifier::external_body]
pub struct ExValue(serde_json::Value);

/// What a `serde_json::Value` holds.
pub uninterp spec fn value_contents(value: serde_json::Value) -> JsonModel;

/// What the value holds that `serde_json::from_str` reads from `text`, or how its error reads.
pub uninterp spec fn parsed(text: Seq<char>) -> Result<JsonModel, Seq<char>>;

/// Reads a JSON text with `serde_json::from_str`, and hands out its error as the text that the
/// error displays: what is wrong, and at which line and column. Whether a value is read, what it
/// holds, and how an error reads depend on the text alone, and are named `parsed`.
#[verifier::external_body]
fn read_value(text: &str) -> (value: Result<serde_json::Value, String>)
    ensures
        match value {
            Ok(value) => parsed(text@) == Ok::<JsonModel, Seq<char>>(value_contents(value)),
            Err(cause) => parsed(text@) == Err::<JsonModel, Seq<char>>(cause@),
        },
{
    match serde_json::from_str(text) {
        Ok(value) => Ok(value),
        Err(error) => Err(error.to_string()),
    }
}

/// A `serde_json::Value`, one level deep.
enum Parts<'a> {
    Null,
    Bool(bool),
    Number(Option<u64>),
    Text(&'a String),
    List(&'a Vec<serde_json::Value>),
    Object(Vec<(&'a String, &'a serde_json::Value)>),
}

/// What a value holds of which these are the parts.
spec fn parts_contents(parts: Parts) -> JsonModel {
    match parts {
        Parts::Null => JsonModel::Null,
        Parts::Bool(b) => JsonModel::Bool(b),
        Parts::Number(n) => JsonModel::Number(n),
        Parts::Text(text) => JsonModel::Text(text@),
        Parts::List(items) => JsonModel::List(
            Seq::new(items@.len(), |i: int| value_contents(items@[i])),
        ),
        Parts::Object(members) => JsonModel::Object(
            Seq::new(members@.len(), |i: int| (members@[i].0@, value_contents(*members@[i].1))),
        ),
    }
}

/// Tells the variants of `serde_json::Value` apart. Of a number it hands out what
/// `serde_json::Number::as_u64` gives, and of an object the members that `serde_json::Map::iter`
/// walks through, in its order. A value holds what its parts hold.
#[verifier::external_body]
fn parts_of<'a>(value: &'a serde_json::Value) -> (parts: Parts<'a>)
    ensures
        parts_contents(parts) == value_contents(*value),
{
    match value {
        serde_json::Value::Null => Parts::Null,
        serde_json::Value::Bool(b) => Parts::Bool(*b),
        serde_json::Value::Number(n) => Parts::Number(n.as_u64()),
        serde_json::Value::String(text) => Parts::Text(text),
        serde_json::Value::Array(items) => Parts::List(items),
        serde_json::Value::Object(members) => Parts::Object(members.iter().collect()),
    }
}

/// The value that holds what a `serde_json::Value` holds.
fn json_of(value: &serde_json::Value) -> (json: Json)
    ensures
        json@ == value_contents(*value),
    decreases value_contents(*value),
{
    let ghost contents = value_contents(*value);
    match parts_of(value) {
        Parts::Null => Json::Null,
        Parts::Bool(b) => Json::Bool(b),
        Parts::Number(n) => Json::Number(n),
        Parts::Text(text) => Json::Text(text.clone()),
        Parts::List(items) => {
            let mut list: Vec<Json> = Vec::new();
            let mut i: usize = 0;
            while i < items.len()
                invariant
                    i <= items.len(),
                    contents == value_contents(*value),
                    contents is List,
                    contents->List_0.len() == items@.len(),
                    forall|j: int|
                        0 <= j < items@.len() ==> #[trigger] contents->List_0[j] == value_contents(
                            items@[j],
                        ),
                    list@.len() == i,
                    forall|j: int| 0 <= j < i ==> (#[trigger] list@[j])@ == contents->List_0[j],
                decreases items.len() - i,
            {
                proof {
                    assert(decreases_to!(contents => contents->List_0));
                    assert(decreases_to!(contents->List_0 => contents->List_0[i as int]));
                }
                list.push(json_of(&items[i]));
                i = i + 1;
            }
            let json = Json::List(list);
            proof {
                lemma_model(json);
                assert(items_model(list@) =~= contents->List_0);
            }
            json
        },
        Parts::Object(members) => {
            let mut object: Vec<(String, Json)> = Vec::new();
            let mut i: usize = 0;
            while i < members.len()
                invariant
                    i <= members.len(),
                    contents == value_contents(*value),
                    contents is Object,
                    contents->Object_0.len() == members@.len(),
                    forall|j: int|
                        0 <= j < members@.len() ==> #[trigger] contents->Object_0[j] == (
                            members@[j].0@,
                            value_contents(*members@[j].1),
                        ),
                    object@.len() == i,
                    forall|j: int|
                        0 <= j < i ==> ((#[trigger] object@[j]).0@, object@[j].1@)
                            == contents->Object_0[j],
                decreases members.len() - i,
            {
                proof {
                    assert(decreases_to!(contents => contents->Object_0));
                    assert(decreases_to!(contents->Object_0 => contents->Object_0[i as int]));
                    assert(decreases_to!(
                        contents->Object_0[i as int] => contents->Object_0[i as int].1
                    ));
                }
                let (name, inner) = members[i];
                object.push((name.clone(), json_of(inner)));
                i = i + 1;
            }
            let json = Json::Object(object);
            proof {
                lemma_model(json);
                assert(members_model(object@) =~= contents->Object_0);
            }
            json
        },
    }
}

/// Reads a JSON text.
pub fn parse_json(text: &str) -> (json: Result<Json, ExtractError>)
    ensures
        match json {
            Ok(json) => parsed(text@) == Ok::<JsonModel, Seq<char>>(json@),
            Err(ExtractError::InvalidJson(cause)) => parsed(text@) == Err::<JsonModel, Seq<char>>(
                cause@,
            ),
            Err(_) => false,
        },
{
    match read_value(text) {
        Ok(value) => Ok(json_of(&value)),
        Err(cause) => Err(ExtractError::InvalidJson(cause)),
    }
}

/// To walk one path and then another is to walk the two paths as one.
pub proof fn law_paths_compose(value: JsonModel, first: Seq<Seq<char>>, second: Seq<Seq<char>>)
    ensures
        at_path(value, first + second) == match at_path(value, first) {
            Some(inner) => at_path(inner, second),
            None => None,
        },
    decreases first.len(),
{
    if first.len() == 0 {
        assert(first + second =~= second);
    } else {
        assert((first + second).drop_first() =~= first.drop_first() + second);
        if let Some(inner) = at_key(value, first[0]) {
            law_paths_compose(inner, first.drop_first(), second);
        }
    }
}

} // verus!
