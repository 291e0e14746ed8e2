//! Constants that documentation refers to: finding the references, and reading values.

use vstd::prelude::*;

use crate::item::Index;
use crate::json::{
    at_path, get_json_object, get_json_path, get_json_string, items_model, keys_1, keys_2,
    members_model, object_at, parse_json, parsed, text_at, Json, JsonModel,
};
use crate::names::{name_views, NameSet};
use crate::text::{chars_of, ends_with, occurs, occurs_at, same, strip_suffix, view_of, views};

verus! {

/// Whether `c` can stand in the name of a constant: `_`, an upper case ASCII letter, or, unless it
/// comes first, a digit.
pub open spec fn is_name_char(c: char, first: bool) -> bool {
    c == '_' || 'A' <= c <= 'Z' || (!first && '0' <= c <= '9')
}

/// Whether `name` is the name of a constant.
pub open spec fn is_constant_name(name: Seq<char>) -> bool {
    &&& name.len() > 0
    &&& forall|i: int| 0 <= i < name.len() ==> is_name_char(#[trigger] name[i], i == 0)
}

/// How documentation refers to `name`: in back quotes and square brackets.
pub open spec fn reference(name: Seq<char>) -> Seq<char> {
    seq!['[', '`'] + name + seq!['`', ']']
}

/// The constants that `text` refers to.
pub open spec fn constant_references(text: Seq<char>) -> Set<Seq<char>> {
    Set::new(|name: Seq<char>| is_constant_name(name) && occurs(text, reference(name)))
}

/// The regular expression of a reference to a constant. Its group is the name.
pub const CONSTANT_REFERENCE_PATTERN: &'static str = r"\[`([A-Z_][A-Z0-9_]*)`\]";

/// Searches `text` with `regex::Regex::new` and `Regex::captures_iter`, and hands out what the
/// first group of each match holds. For the pattern of a reference to a constant these are the
/// names of constants that stand in `text` in back quotes and square brackets: no two such places
/// overlap, so the search finds each of them. The order of the names is left unsaid.
#[verifier::external_body]
fn captured_names(pattern: &str, text: &str) -> (names: Vec<String>)
    requires
        pattern@ == CONSTANT_REFERENCE_PATTERN@,
    ensures
        name_views(names@).to_set() == constant_references(text@),
{
    regex::Regex::new(pattern)
        .unwrap()
        .captures_iter(text)
        .map(|found| found[1].to_string())
        .collect()
}

/// Finds the constants that `text` refers to.
pub fn find_constant_references(text: &str) -> (constants: NameSet)
    ensures
        constants.wf(),
        constants@ == constant_references(text@),
{
    let mut constants = NameSet::new();
    constants.extend(NameSet { names: captured_names(CONSTANT_REFERENCE_PATTERN, text) });
    proof {
        assert(constants@ =~= constant_references(text@));
    }
    constants
}

/// The suffixes that a number of a given type can have.
pub open spec fn type_suffixes() -> Seq<Seq<char>> {
    seq![
        "u8"@,
        "u16"@,
        "u32"@,
        "u64"@,
        "u128"@,
        "usize"@,
        "i8"@,
        "i16"@,
        "i32"@,
        "i64"@,
        "i128"@,
        "isize"@,
        "f32"@,
        "f64"@,
    ]
}

/// Whether `text` looks like a number: digits, underscores, dots and minus signs.
pub open spec fn is_numeric(text: Seq<char>) -> bool {
    forall|i: int|
        0 <= i < text.len() ==> {
            ||| '0' <= #[trigger] text[i] <= '9'
            ||| text[i] == '_'
            ||| text[i] == '.'
            ||| text[i] == '-'
        }
}

/// Whether `text` looks like a literal: a number, or something between quotation marks.
pub open spec fn is_literal(text: Seq<char>) -> bool {
    text.len() > 0 && (is_numeric(text) || (text[0] == '"' && text.last() == '"'))
}

/// Whether `suffix` is a suffix of `value` behind a literal.
pub open spec fn strips(value: Seq<char>, suffix: Seq<char>) -> bool {
    ends_with(value, suffix) && is_literal(value.take(value.len() - suffix.len()))
}

/// `value` without the first of the suffixes that it has behind a literal, if any.
pub open spec fn without_suffix(value: Seq<char>, suffixes: Seq<Seq<char>>) -> Seq<char>
    decreases suffixes.len(),
{
    if suffixes.len() == 0 {
        value
    } else if strips(value, suffixes[0]) {
        value.take(value.len() - suffixes[0].len())
    } else {
        without_suffix(value, suffixes.drop_first())
    }
}

/// `value` without the type suffix that it has behind a literal, if any.
pub open spec fn stripped(value: Seq<char>) -> Seq<char> {
    without_suffix(value, type_suffixes())
}

/// Tells whether `text` looks like a literal.
fn looks_literal(text: &str) -> (yes: bool)
    ensures
        yes == is_literal(text@),
{
    let chars = chars_of(text);
    if chars.len() == 0 {
        return false;
    }
    if chars[0] == '"' && chars[chars.len() - 1] == '"' {
        return true;
    }
    let mut i: usize = 0;
    while i < chars.len()
        invariant
            i <= chars.len(),
            chars@ == text@,
            is_numeric(text@.take(i as int)),
            !(text@[0] == '"' && text@.last() == '"'),
        decreases chars.len() - i,
    {
        let c = chars[i];
        if !(('0' <= c && c <= '9') || c == '_' || c == '.' || c == '-') {
            return false;
        }
        proof {
            assert forall|j: int| 0 <= j < i + 1 implies {
                let c = #[trigger] text@.take(i + 1)[j];
                '0' <= c <= '9' || c == '_' || c == '.' || c == '-'
            } by {
                if j < i {
                    assert(text@.take(i + 1)[j] == text@.take(i as int)[j]);
                }
            }
        }
        i = i + 1;
    }
    proof {
        assert(text@.take(i as int) =~= text@);
    }
    true
}

/// Strips the type suffix from the value of a constant (`50u64` becomes `50`).
pub fn strip_type_suffix(value: &str) -> (rest: String)
    ensures
        rest@ == stripped(value@),
{
    let suffixes: [&str; 14] = [
        "u8",
        "u16",
        "u32",
        "u64",
        "u128",
        "usize",
        "i8",
        "i16",
        "i32",
        "i64",
        "i128",
        "isize",
        "f32",
        "f64",
    ];
    proof {
        assert(views(suffixes@) =~= type_suffixes());
        assert(type_suffixes().skip(0) =~= type_suffixes());
    }
    let mut i: usize = 0;
    while i < 14
        invariant
            i <= 14,
            views(suffixes@) == type_suffixes(),
            stripped(value@) == without_suffix(value@, type_suffixes().skip(i as int)),
        decreases 14 - i,
    {
        proof {
            assert(type_suffixes().skip(i as int)[0] == suffixes@[i as int]@);
            assert(type_suffixes().skip(i as int).drop_first() =~= type_suffixes().skip(i + 1));
        }
        if let Some(start) = strip_suffix(value, suffixes[i]) {
            if looks_literal(start) {
                return start.to_owned();
            }
        }
        i = i + 1;
    }
    value.to_owned()
}

proof fn lemma_without_suffix(value: Seq<char>, suffixes: Seq<Seq<char>>)
    ensures
        without_suffix(value, suffixes) == value || is_literal(without_suffix(value, suffixes)),
    decreases suffixes.len(),
{
    if suffixes.len() > 0 {
        lemma_without_suffix(value, suffixes.drop_first());
    }
}

/// A literal has no suffix that begins with a letter and ends with no quotation mark.
proof fn lemma_literal_has_no_suffix(value: Seq<char>, suffixes: Seq<Seq<char>>)
    requires
        is_literal(value),
        forall|k: int|
            0 <= k < suffixes.len() ==> (#[trigger] suffixes[k]).len() > 0 && 'a' <= suffixes[k][0]
                <= 'z' && suffixes[k].last() != '"',
    ensures
        without_suffix(value, suffixes) == value,
    decreases suffixes.len(),
{
    if suffixes.len() > 0 {
        let suffix = suffixes[0];
        let start = value.len() - suffix.len();
        if ends_with(value, suffix) {
            assert(value.subrange(start, start + suffix.len())[0] == value[start]);
            assert(value.subrange(start, start + suffix.len()).last() == value.last());
        }
        let rest = suffixes.drop_first();
        assert forall|k: int| 0 <= k < rest.len() implies (#[trigger] rest[k]).len() > 0 && 'a'
            <= rest[k][0] <= 'z' && rest[k].last() != '"' by {
            assert(rest[k] == suffixes[k + 1]);
        }
        lemma_literal_has_no_suffix(value, rest);
    }
}

/// What is left of a value has no type suffix left to strip.
pub proof fn law_strip_is_idempotent(value: Seq<char>)
    ensures
        stripped(stripped(value)) == stripped(value),
{
    reveal_strlit("u8");
    reveal_strlit("u16");
    reveal_strlit("u32");
    reveal_strlit("u64");
    reveal_strlit("u128");
    reveal_strlit("usize");
    reveal_strlit("i8");
    reveal_strlit("i16");
    reveal_strlit("i32");
    reveal_strlit("i64");
    reveal_strlit("i128");
    reveal_strlit("isize");
    reveal_strlit("f32");
    reveal_strlit("f64");
    lemma_without_suffix(value, type_suffixes());
    if stripped(value) != value {
        lemma_literal_has_no_suffix(stripped(value), type_suffixes());
    }
}

/// The text, unless it is the `_` that stands for an expression left out.
pub open spec fn unless_left_out(text: Option<Seq<char>>) -> Option<Seq<char>> {
    if text == Some("_"@) {
        None
    } else {
        text
    }
}

/// `text`, without a type suffix.
pub open spec fn stripped_value(text: Option<Seq<char>>) -> Option<Seq<char>> {
    match text {
        Some(text) => Some(stripped(text)),
        None => None,
    }
}

/// The first of the two that is there.
pub open spec fn first_of(a: Option<Seq<char>>, b: Option<Seq<char>>) -> Option<Seq<char>> {
    if a is Some {
        a
    } else {
        b
    }
}

/// The value of a constant as the nested `const` of newer rustdoc gives it: the expression of a
/// literal, the value without its type suffix, or the expression.
pub open spec fn nested_value(constant: JsonModel) -> Option<Seq<char>> {
    let expr = unless_left_out(text_at(constant, seq!["const"@, "expr"@]));
    let literal = at_path(constant, seq!["const"@, "is_literal"@]) == Some(JsonModel::Bool(true));
    first_of(
        if literal {
            expr
        } else {
            None
        },
        first_of(stripped_value(text_at(constant, seq!["const"@, "value"@])), expr),
    )
}

/// The value of a constant as older rustdoc gives it: the value without its type suffix, the
/// expression, or the type where that is a text.
pub open spec fn flat_value(constant: JsonModel) -> Option<Seq<char>> {
    first_of(
        stripped_value(text_at(constant, seq!["value"@])),
        first_of(
            unless_left_out(text_at(constant, seq!["expr"@])),
            text_at(constant, seq!["type"@]),
        ),
    )
}

/// The value of a constant: that of the nested `const`, where there is one and it gives one, and
/// otherwise what stands beside it.
pub open spec fn constant_value(constant: JsonModel) -> Option<Seq<char>> {
    first_of(
        if object_at(constant, seq!["const"@]) is Some {
            nested_value(constant)
        } else {
            None
        },
        flat_value(constant),
    )
}

/// The value that `item` gives the constant `name`, where it is that constant.
pub open spec fn value_in_item(item: JsonModel, name: Seq<char>) -> Option<Seq<char>> {
    if text_at(item, seq!["name"@]) == Some(name) && object_at(
        item,
        seq!["inner"@, "constant"@],
    ) is Some {
        constant_value(at_path(item, seq!["inner"@, "constant"@])->0)
    } else {
        None
    }
}

/// The value of the constant `name`: the first that an item of the index gives it.
pub open spec fn value_in_index(index: Index, name: Seq<char>) -> Option<Seq<char>>
    decreases index.len(),
{
    if index.len() == 0 {
        None
    } else {
        first_of(value_in_item(index[0].1, name), value_in_index(index.drop_first(), name))
    }
}

/// The value of the constant `name` in the rustdoc JSON of other crates: the first that one of
/// them gives it.
pub open spec fn value_in_crates(crates: Seq<JsonModel>, name: Seq<char>) -> Option<Seq<char>>
    decreases crates.len(),
{
    if crates.len() == 0 {
        None
    } else {
        first_of(
            match object_at(crates[0], seq!["index"@]) {
                Some(index) => value_in_index(index, name),
                None => None,
            },
            value_in_crates(crates.drop_first(), name),
        )
    }
}

/// The value of the constant `name`: that in the index, or else that in other crates.
pub open spec fn resolved(index: Index, crates: Seq<JsonModel>, name: Seq<char>) -> Option<
    Seq<char>,
> {
    first_of(value_in_index(index, name), value_in_crates(crates, name))
}

/// The expression at `path`, unless it was left out.
fn expression(constant: &Json, path: &[&str]) -> (text: Option<String>)
    ensures
        view_of(text) == unless_left_out(text_at(constant@, views(path@))),
{
    match get_json_string(constant, path) {
        Some(text) => if same(text, "_") {
            None
        } else {
            Some(text.to_owned())
        },
        None => None,
    }
}

/// The value at `path`, without a type suffix.
fn plain_value(constant: &Json, path: &[&str]) -> (text: Option<String>)
    ensures
        view_of(text) == stripped_value(text_at(constant@, views(path@))),
{
    match get_json_string(constant, path) {
        Some(text) => Some(strip_type_suffix(text)),
        None => None,
    }
}

/// The value of a constant.
fn value_of(constant: &Json) -> (value: Option<String>)
    ensures
        view_of(value) == constant_value(constant@),
{
    if get_json_object(constant, &keys_1("const")).is_some() {
        // The expression of a literal has no type suffix.
        if let Some(Json::Bool(true)) = get_json_path(constant, &keys_2("const", "is_literal")) {
            let expr = expression(constant, &keys_2("const", "expr"));
            if expr.is_some() {
                return expr;
            }
        }
        let value = plain_value(constant, &keys_2("const", "value"));
        if value.is_some() {
            return value;
        }
        let expr = expression(constant, &keys_2("const", "expr"));
        if expr.is_some() {
            return expr;
        }
    }
    let value = plain_value(constant, &keys_1("value"));
    if value.is_some() {
        return value;
    }
    let expr = expression(constant, &keys_1("expr"));
    if expr.is_some() {
        return expr;
    }
    match get_json_string(constant, &keys_1("type")) {
        Some(text) => Some(text.to_owned()),
        None => None,
    }
}

/// Looks the constant `name` up in the index of a crate.
pub fn resolve_constant_in_index(name: &str, rustdoc_index: &Vec<(String, Json)>) -> (value: Option<
    String,
>)
    ensures
        view_of(value) == value_in_index(members_model(rustdoc_index@), name@),
{
    let ghost index = members_model(rustdoc_index@);
    let mut i: usize = 0;
    proof {
        assert(index.skip(0) =~= index);
    }
    while i < rustdoc_index.len()
        invariant
            i <= rustdoc_index.len(),
            index == members_model(rustdoc_index@),
            value_in_index(index, name@) == value_in_index(index.skip(i as int), name@),
        decreases rustdoc_index.len() - i,
    {
        let item = &rustdoc_index[i].1;
        proof {
            assert(index.skip(i as int)[0] == index[i as int]);
            assert(index.skip(i as int).drop_first() =~= index.skip(i + 1));
        }
        if let Some(item_name) = get_json_string(item, &keys_1("name")) {
            if same(item_name, name) && get_json_object(
                item,
                &keys_2("inner", "constant"),
            ).is_some() {
                if let Some(constant) = get_json_path(item, &keys_2("inner", "constant")) {
                    let value = value_of(constant);
                    if value.is_some() {
                        return value;
                    }
                }
            }
        }
        i = i + 1;
    }
    None
}

/// Looks the constant `name` up in the index, and in the rustdoc JSON of other crates where the
/// index does not have it.
pub fn resolve_constant_reference(
    name: &str,
    rustdoc_index: &Vec<(String, Json)>,
    additional_crates: &Vec<Json>,
) -> (value: Option<String>)
    ensures
        view_of(value) == resolved(
            members_model(rustdoc_index@),
            items_model(additional_crates@),
            name@,
        ),
{
    let value = resolve_constant_in_index(name, rustdoc_index);
    if value.is_some() {
        return value;
    }
    let ghost crates = items_model(additional_crates@);
    let mut i: usize = 0;
    proof {
        assert(crates.skip(0) =~= crates);
    }
    while i < additional_crates.len()
        invariant
            i <= additional_crates.len(),
            crates == items_model(additional_crates@),
            value_in_index(members_model(rustdoc_index@), name@) is None,
            value_in_crates(crates, name@) == value_in_crates(crates.skip(i as int), name@),
        decreases additional_crates.len() - i,
    {
        proof {
            assert(crates.skip(i as int)[0] == additional_crates@[i as int]@);
            assert(crates.skip(i as int).drop_first() =~= crates.skip(i + 1));
        }
        if let Some(index) = get_json_object(&additional_crates[i], &keys_1("index")) {
            let value = resolve_constant_in_index(name, index);
            if value.is_some() {
                return value;
            }
        }
        i = i + 1;
    }
    None
}

/// What the texts hold that are JSON.
pub open spec fn parsed_crates(texts: Seq<Seq<char>>) -> Seq<JsonModel>
    decreases texts.len(),
{
    if texts.len() == 0 {
        seq![]
    } else {
        match parsed(texts.last()) {
            Ok(model) => parsed_crates(texts.drop_last()).push(model),
            Err(_) => parsed_crates(texts.drop_last()),
        }
    }
}

/// Reads the rustdoc JSON of other crates. A text that is no JSON is passed over.
pub fn read_additional_crates(texts: &Vec<String>) -> (crates: Vec<Json>)
    ensures
        items_model(crates@) == parsed_crates(name_views(texts@)),
{
    let ghost all = name_views(texts@);
    let mut crates: Vec<Json> = Vec::new();
    let mut i: usize = 0;
    proof {
        assert(all.take(0).len() == 0);
        assert(items_model(crates@) =~= seq![]);
    }
    while i < texts.len()
        invariant
            i <= texts.len(),
            all == name_views(texts@),
            items_model(crates@) == parsed_crates(all.take(i as int)),
        decreases texts.len() - i,
    {
        let ghost earlier = crates@;
        proof {
            assert(all.take(i + 1).drop_last() =~= all.take(i as int));
            assert(all.take(i + 1).last() == texts@[i as int]@);
        }
        if let Ok(json) = parse_json(texts[i].as_str()) {
            let ghost model = json@;
            crates.push(json);
            proof {
                assert(items_model(crates@) =~= items_model(earlier).push(model));
            }
        }
        i = i + 1;
    }
    proof {
        assert(all.take(i as int) =~= all);
    }
    crates
}

/// A reference to a constant is found wherever it stands.
pub proof fn law_reference_is_found(start: Seq<char>, name: Seq<char>, end: Seq<char>)
    requires
        is_constant_name(name),
    ensures
        constant_references(start + reference(name) + end).contains(name),
{
    let text = start + reference(name) + end;
    let n = start.len() as int;
    assert(text.subrange(n, n + reference(name).len()) =~= reference(name));
    assert(occurs_at(text, reference(name), n));
}

/// The index comes first: other crates give a constant its value only where the index does not.
pub proof fn law_index_comes_first(index: Index, crates: Seq<JsonModel>, name: Seq<char>)
    ensures
        value_in_index(index, name) is Some ==> resolved(index, crates, name) == value_in_index(
            index,
            name,
        ),
        value_in_index(index, name) is None ==> resolved(index, crates, name) == value_in_crates(
            crates,
            name,
        ),
{
}

/// A constant has a value in the index if and only if an item of the index gives it one.
pub proof fn law_value_comes_from_item(index: Index, name: Seq<char>)
    ensures
        value_in_index(index, name) is Some <==> exists|i: int|
            0 <= i < index.len() && value_in_item((#[trigger] index[i]).1, name) is Some,
    decreases index.len(),
{
    if index.len() > 0 {
        let rest = index.drop_first();
        law_value_comes_from_item(rest, name);
        if exists|i: int|
            0 <= i < rest.len() && value_in_item((#[trigger] rest[i]).1, name) is Some {
            let i = choose|i: int|
                0 <= i < rest.len() && value_in_item((#[trigger] rest[i]).1, name) is Some;
            assert(value_in_item(index[i + 1].1, name) is Some);
        }
        if exists|i: int|
            0 <= i < index.len() && value_in_item((#[trigger] index[i]).1, name) is Some {
            let i = choose|i: int|
                0 <= i < index.len() && value_in_item((#[trigger] index[i]).1, name) is Some;
            if i > 0 {
                assert(value_in_item(rest[i - 1].1, name) is Some);
            }
        }
    }
}

} // verus!
