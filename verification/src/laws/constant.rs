//! Laws on constants.

use vstd::prelude::*;

use crate::constant::{
    constant_references, is_literal, parsed_crates, reference, resolved, stripped, strips,
    type_suffixes, value_in_crates, value_in_index, without_suffix,
};
use crate::item::Index;
use crate::json::{at_path, law_paths_compose, object_at, parsed, text_at, JsonModel};
use crate::laws::text::law_occurrence_is_part;

verus! {

/// A name in back quotes and square brackets.
pub open spec fn bracketed(name: Seq<char>) -> Seq<char> {
    seq!['[', '`'] + name + seq!['`', ']']
}

/// A text refers to exactly the names that stand in it in back quotes and square brackets, and that
/// are made of upper case letters, underscores and, behind the first character, digits.
pub proof fn law_references_are_names_in_brackets(text: Seq<char>, name: Seq<char>)
    ensures
        constant_references(text).contains(name) <==> {
            &&& name.len() > 0
            &&& forall|i: int|
                0 <= i < name.len() ==> (#[trigger] name[i] == '_' || 'A' <= name[i] <= 'Z' || (i > 0
                    && '0' <= name[i] <= '9'))
            &&& exists|start: Seq<char>, end: Seq<char>|
                text == #[trigger] (start + bracketed(name) + end)
        },
{
    law_occurrence_is_part(text, reference(name));
    assert(reference(name) == bracketed(name));
}

/// Whether a text looks like a literal: it is not empty, and either made of digits, underscores,
/// dots and minus signs, or between quotation marks.
pub open spec fn looks_literal(text: Seq<char>) -> bool {
    &&& text.len() > 0
    &&& {
        ||| text[0] == '"' && text[text.len() - 1] == '"'
        ||| forall|i: int|
            0 <= i < text.len() ==> ('0' <= #[trigger] text[i] <= '9' || text[i] == '_' || text[i]
                == '.' || text[i] == '-')
    }
}

/// Whether a text is the suffix of a numeric type.
pub open spec fn is_type_suffix(text: Seq<char>) -> bool {
    ||| text == "u8"@
    ||| text == "u16"@
    ||| text == "u32"@
    ||| text == "u64"@
    ||| text == "u128"@
    ||| text == "usize"@
    ||| text == "i8"@
    ||| text == "i16"@
    ||| text == "i32"@
    ||| text == "i64"@
    ||| text == "i128"@
    ||| text == "isize"@
    ||| text == "f32"@
    ||| text == "f64"@
}

proof fn lemma_looks_literal(text: Seq<char>)
    ensures
        looks_literal(text) <==> is_literal(text),
{
}

/// A suffix begins with a letter, and holds no quotation mark.
spec fn is_plain(suffix: Seq<char>) -> bool {
    &&& suffix.len() > 0
    &&& 'a' <= suffix[0] <= 'z'
    &&& forall|i: int| 0 <= i < suffix.len() ==> #[trigger] suffix[i] != '"'
}

proof fn lemma_suffixes()
    ensures
        forall|k: int| 0 <= k < type_suffixes().len() ==> is_plain(#[trigger] type_suffixes()[k]),
        forall|text: Seq<char>| #[trigger]
            is_type_suffix(text) <==> type_suffixes().contains(text),
{
    reveal_strlit("u8");
    reveal_strlit("u16");
    reveal_strlit("u32");
    reveal_strlit("u64");
    reveal_strlit("u128");
    reveal_strlit("usize");
    reveal_strlit("i8");
    reveal_strlit("i16");
    reveal_strlit("i32");
    reveal_strlit("i64");
    reveal_strlit("i128");
    reveal_strlit("isize");
    reveal_strlit("f32");
    reveal_strlit("f64");
    let all = type_suffixes();
    assert forall|text: Seq<char>| #[trigger] is_type_suffix(text) implies all.contains(text) by {
        assert(all[0] == "u8"@ && all[1] == "u16"@ && all[2] == "u32"@ && all[3] == "u64"@);
        assert(all[4] == "u128"@ && all[5] == "usize"@ && all[6] == "i8"@ && all[7] == "i16"@);
        assert(all[8] == "i32"@ && all[9] == "i64"@ && all[10] == "i128"@ && all[11] == "isize"@);
        assert(all[12] == "f32"@ && all[13] == "f64"@);
    }
}

/// A literal with one suffix behind it is no shorter than with another.
proof fn lemma_one_literal(
    literal: Seq<char>,
    suffix: Seq<char>,
    other: Seq<char>,
    other_suffix: Seq<char>,
)
    requires
        literal + suffix == other + other_suffix,
        is_plain(suffix),
        is_literal(other),
    ensures
        literal.len() >= other.len(),
{
    if literal.len() < other.len() {
        let value = literal + suffix;
        let n = literal.len() as int;
        assert(value.len() == (other + other_suffix).len());
        assert(value[n] == suffix[0]);
        assert((other + other_suffix)[n] == other[n]);
        assert(other.last() == value[other.len() - 1]);
        assert(other.last() == suffix[other.len() - 1 - n]);
    }
}

proof fn lemma_strip(value: Seq<char>, suffixes: Seq<Seq<char>>, k: int)
    requires
        0 <= k < suffixes.len(),
        strips(value, suffixes[k]),
        forall|j: int| 0 <= j < suffixes.len() ==> is_plain(#[trigger] suffixes[j]),
    ensures
        without_suffix(value, suffixes) == value.take(value.len() - suffixes[k].len()),
    decreases suffixes.len(),
{
    let first = suffixes[0];
    let literal = value.take(value.len() - suffixes[k].len());
    if strips(value, first) {
        let other = value.take(value.len() - first.len());
        assert(literal + suffixes[k] =~= value);
        assert(other + first =~= value);
        lemma_one_literal(literal, suffixes[k], other, first);
        lemma_one_literal(other, first, literal, suffixes[k]);
    } else {
        let rest = suffixes.drop_first();
        assert forall|j: int| 0 <= j < rest.len() implies is_plain(#[trigger] rest[j]) by {
            assert(rest[j] == suffixes[j + 1]);
        }
        assert(rest[k - 1] == suffixes[k]);
        lemma_strip(value, rest, k - 1);
    }
}

/// Of a literal with the suffix of a type behind it, the literal is left.
pub proof fn law_suffix_is_stripped(literal: Seq<char>, suffix: Seq<char>)
    requires
        looks_literal(literal),
        is_type_suffix(suffix),
    ensures
        stripped(literal + suffix) == literal,
{
    lemma_suffixes();
    let value = literal + suffix;
    let k = choose|k: int| 0 <= k < type_suffixes().len() && type_suffixes()[k] == suffix;
    assert(value.take(literal.len() as int) =~= literal);
    assert(value.subrange(literal.len() as int, value.len() as int) =~= suffix);
    lemma_looks_literal(literal);
    lemma_strip(value, type_suffixes(), k);
}

proof fn lemma_without_suffix_is(value: Seq<char>, suffixes: Seq<Seq<char>>)
    ensures
        without_suffix(value, suffixes) == value || exists|k: int|
            0 <= k < suffixes.len() && strips(value, #[trigger] suffixes[k]) && value
                == without_suffix(value, suffixes) + suffixes[k],
    decreases suffixes.len(),
{
    if suffixes.len() > 0 {
        if strips(value, suffixes[0]) {
            assert(value =~= without_suffix(value, suffixes) + suffixes[0]);
        } else {
            let rest = suffixes.drop_first();
            lemma_without_suffix_is(value, rest);
            if without_suffix(value, rest) != value {
                let k = choose|k: int|
                    0 <= k < rest.len() && strips(value, #[trigger] rest[k]) && value
                        == without_suffix(value, rest) + rest[k];
                assert(suffixes[k + 1] == rest[k]);
            }
        }
    }
}

/// Of anything else nothing is stripped.
pub proof fn law_only_suffixes_are_stripped(value: Seq<char>)
    ensures
        stripped(value) == value || exists|suffix: Seq<char>|
            is_type_suffix(suffix) && looks_literal(stripped(value)) && value == #[trigger] (stripped(
                value,
            ) + suffix),
{
    lemma_suffixes();
    lemma_without_suffix_is(value, type_suffixes());
    if stripped(value) != value {
        let k = choose|k: int|
            0 <= k < type_suffixes().len() && strips(value, #[trigger] type_suffixes()[k]) && value
                == stripped(value) + type_suffixes()[k];
        let suffix = type_suffixes()[k];
        assert(type_suffixes().contains(suffix));
        assert(is_type_suffix(suffix));
        assert(value.take(value.len() - suffix.len()) =~= stripped(value));
        lemma_looks_literal(stripped(value));
    }
}

/// Whether an item is the constant `name`.
pub open spec fn is_constant_named(item: JsonModel, name: Seq<char>) -> bool {
    &&& text_at(item, seq!["name"@]) == Some(name)
    &&& object_at(item, seq!["inner"@, "constant"@]) is Some
}

proof fn lemma_no_nested(constant: JsonModel, key: Seq<char>)
    ensures
        object_at(constant, seq!["const"@]) is None ==> at_path(
            constant,
            seq!["const"@, key],
        ) is None,
{
    law_paths_compose(constant, seq!["const"@], seq![key]);
    assert(seq!["const"@] + seq![key] =~= seq!["const"@, key]);
    if let Some(inner) = at_path(constant, seq!["const"@]) {
        if !(inner is Object) {
            assert(at_path(inner, seq![key]) is None);
        }
    }
}

proof fn lemma_value_from(index: Index, i: int, name: Seq<char>)
    requires
        0 <= i <= index.len(),
        forall|j: int| 0 <= j < i ==> !is_constant_named((#[trigger] index[j]).1, name),
    ensures
        value_in_index(index, name) == value_in_index(index.skip(i), name),
    decreases i,
{
    if i == 0 {
        assert(index.skip(0) =~= index);
    } else {
        let rest = index.drop_first();
        assert(!is_constant_named(index[0].1, name));
        assert forall|j: int| 0 <= j < i - 1 implies !is_constant_named(
            (#[trigger] rest[j]).1,
            name,
        ) by {
            assert(rest[j] == index[j + 1]);
        }
        lemma_value_from(rest, i - 1, name);
        assert(rest.skip(i - 1) =~= index.skip(i));
    }
}

/// The value of a constant, by what the first item of that name says. The expression of a literal
/// comes first. Otherwise the value comes first, without the suffix of its type, whatever the
/// expression says, and the expression only where there is no value. Where neither is under
/// `const`, the value, the expression and the type beside it come in that order. An expression `_` counts as
/// none. Where the item says nothing, the items behind it count.
pub proof fn law_value_of_constant(index: Index, i: int, name: Seq<char>)
    requires
        0 <= i < index.len(),
        forall|j: int| 0 <= j < i ==> !is_constant_named((#[trigger] index[j]).1, name),
        is_constant_named(index[i].1, name),
    ensures
        ({
            let constant = at_path(index[i].1, seq!["inner"@, "constant"@])->0;
            let nested_literal = at_path(constant, seq!["const"@, "is_literal"@]) == Some(
                JsonModel::Bool(true),
            );
            let nested_expr = text_at(constant, seq!["const"@, "expr"@]);
            let nested_value = text_at(constant, seq!["const"@, "value"@]);
            let value = text_at(constant, seq!["value"@]);
            let expr = text_at(constant, seq!["expr"@]);
            let of_type = text_at(constant, seq!["type"@]);
            let result = value_in_index(index, name);
            if nested_literal && nested_expr is Some && nested_expr->0 != "_"@ {
                result == nested_expr
            } else if nested_value is Some {
                result == Some(stripped(nested_value->0))
            } else if nested_expr is Some && nested_expr->0 != "_"@ {
                result == nested_expr
            } else if value is Some {
                result == Some(stripped(value->0))
            } else if expr is Some && expr->0 != "_"@ {
                result == expr
            } else if of_type is Some {
                result == of_type
            } else {
                result == value_in_index(index.skip(i + 1), name)
            }
        }),
{
    lemma_value_from(index, i, name);
    let rest = index.skip(i);
    assert(rest[0] == index[i]);
    assert(rest.drop_first() =~= index.skip(i + 1));
    let constant = at_path(index[i].1, seq!["inner"@, "constant"@])->0;
    lemma_no_nested(constant, "is_literal"@);
    lemma_no_nested(constant, "expr"@);
    lemma_no_nested(constant, "value"@);
}

/// A constant that is not in the index has no value there.
pub proof fn law_missing_constant(index: Index, name: Seq<char>)
    requires
        forall|j: int| 0 <= j < index.len() ==> !is_constant_named((#[trigger] index[j]).1, name),
    ensures
        value_in_index(index, name) is None,
{
    lemma_value_from(index, index.len() as int, name);
    assert(index.skip(index.len() as int).len() == 0);
}

/// The value that a crate gives a constant, by its rustdoc JSON alone.
pub open spec fn value_in_crate(rustdoc_json: JsonModel, name: Seq<char>) -> Option<Seq<char>> {
    match object_at(rustdoc_json, seq!["index"@]) {
        Some(index) => value_in_index(index, name),
        None => None,
    }
}

proof fn lemma_crates_from(crates: Seq<JsonModel>, k: int, name: Seq<char>)
    requires
        0 <= k <= crates.len(),
        forall|j: int| 0 <= j < k ==> value_in_crate(#[trigger] crates[j], name) is None,
    ensures
        value_in_crates(crates, name) == value_in_crates(crates.skip(k), name),
    decreases k,
{
    if k == 0 {
        assert(crates.skip(0) =~= crates);
    } else {
        let rest = crates.drop_first();
        assert(value_in_crate(crates[0], name) is None);
        assert forall|j: int| 0 <= j < k - 1 implies value_in_crate(
            #[trigger] rest[j],
            name,
        ) is None by {
            assert(rest[j] == crates[j + 1]);
        }
        lemma_crates_from(rest, k - 1, name);
        assert(rest.skip(k - 1) =~= crates.skip(k));
    }
}

/// A constant has the value that the index gives it. Where the index gives none, it has the value
/// that the first of the other crates gives that gives one, and none where no crate does.
pub proof fn law_crates_stand_in(index: Index, crates: Seq<JsonModel>, k: int, name: Seq<char>)
    requires
        0 <= k <= crates.len(),
        forall|j: int| 0 <= j < k ==> value_in_crate(#[trigger] crates[j], name) is None,
        k < crates.len() ==> value_in_crate(crates[k], name) is Some,
    ensures
        resolved(index, crates, name) == (if value_in_index(index, name) is Some {
            value_in_index(index, name)
        } else if k < crates.len() {
            value_in_crate(crates[k], name)
        } else {
            None
        }),
{
    lemma_crates_from(crates, k, name);
    let rest = crates.skip(k);
    if k < crates.len() {
        assert(rest[0] == crates[k]);
    } else {
        assert(rest.len() == 0);
    }
}

/// Of the texts of other crates those are read that are JSON, in their order.
pub proof fn law_crates_are_read_in_order(texts: Seq<Seq<char>>, text: Seq<char>)
    ensures
        parsed_crates(seq![]).len() == 0,
        parsed_crates(texts.push(text)) == match parsed(text) {
            Ok(model) => parsed_crates(texts).push(model),
            Err(_) => parsed_crates(texts),
        },
{
    assert(texts.push(text).drop_last() =~= texts);
}

} // verus!
