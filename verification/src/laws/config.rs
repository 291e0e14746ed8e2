//! Laws on the documentation of a configuration file.

use vstd::prelude::*;

use crate::config::{
    config_cuts_cleanly, constants_in, is_wanted, struct_views, structs_in, target_views,
    warnings_in,
};
use crate::item::{field_ids, Index};
use crate::json::{object_at, text_at, JsonModel};
use crate::structs::{
    struct_constants, struct_cuts_cleanly, struct_model, warnings_of, StructDoc,
};

verus! {

/// Whether an item is to be documented as the struct `name`: it has that name, is a struct, and is
/// one of the targets, where these are given.
pub open spec fn is_target(
    item: JsonModel,
    name: Seq<char>,
    targets: Option<Seq<Seq<char>>>,
) -> bool {
    &&& text_at(item, seq!["name"@]) == Some(name)
    &&& object_at(item, seq!["inner"@, "struct"@]) is Some
    &&& targets matches Some(names) ==> names.contains(name)
}

proof fn lemma_target(item: JsonModel, targets: Option<Seq<Seq<char>>>)
    ensures
        is_wanted(item, targets) <==> exists|name: Seq<char>| #[trigger]
            is_target(item, name, targets),
        forall|name: Seq<char>| #[trigger]
            is_target(item, name, targets) ==> text_at(item, seq!["name"@]) == Some(name),
{
    if is_wanted(item, targets) {
        assert(is_target(item, text_at(item, seq!["name"@])->0, targets));
    }
}

proof fn lemma_items_in_parts(
    index: Index,
    a: Index,
    b: Index,
    targets: Option<Seq<Seq<char>>>,
)
    ensures
        structs_in(index, a + b, targets) == structs_in(index, a, targets) + structs_in(
            index,
            b,
            targets,
        ),
        warnings_in(index, a + b, targets) == warnings_in(index, a, targets) + warnings_in(
            index,
            b,
            targets,
        ),
    decreases b.len(),
{
    if b.len() == 0 {
        assert(a + b =~= a);
        assert(structs_in(index, a, targets) + structs_in(index, b, targets) =~= structs_in(
            index,
            a,
            targets,
        ));
        assert(warnings_in(index, a, targets) + warnings_in(index, b, targets) =~= warnings_in(
            index,
            a,
            targets,
        ));
    } else {
        lemma_items_in_parts(index, a, b.drop_last(), targets);
        assert((a + b).drop_last() =~= a + b.drop_last());
        assert((a + b).last() == b.last());
        assert(structs_in(index, a + b, targets) =~= structs_in(index, a, targets) + structs_in(
            index,
            b,
            targets,
        ));
        assert(warnings_in(index, a + b, targets) =~= warnings_in(index, a, targets) + warnings_in(
            index,
            b,
            targets,
        ));
    }
}

/// Every item counts, in its order: a struct that is a target is documented with what its
/// documentation says, if that says anything, and is warned of, between the items before and behind
/// it.
pub proof fn law_targets_are_documented(
    index: Index,
    items: Index,
    targets: Option<Seq<Seq<char>>>,
    i: int,
    name: Seq<char>,
)
    requires
        0 <= i < items.len(),
        is_target(items[i].1, name, targets),
    ensures
        structs_in(index, items, targets) == structs_in(index, items.take(i), targets)
            + match struct_model(index, name, items[i].1) {
            Some(doc) => seq![doc],
            None => seq![],
        } + structs_in(index, items.skip(i + 1), targets),
        warnings_in(index, items, targets) == warnings_in(index, items.take(i), targets)
            + warnings_of(index, field_ids(items[i].1)) + warnings_in(
            index,
            items.skip(i + 1),
            targets,
        ),
{
    let one = seq![items[i]];
    lemma_target(items[i].1, targets);
    assert(items =~= items.take(i) + (one + items.skip(i + 1)));
    lemma_items_in_parts(index, items.take(i), one + items.skip(i + 1), targets);
    lemma_items_in_parts(index, one, items.skip(i + 1), targets);
    assert(one.drop_last().len() == 0);
    reveal_with_fuel(structs_in, 2);
    reveal_with_fuel(warnings_in, 2);
    assert(structs_in(index, one, targets) =~= match struct_model(index, name, items[i].1) {
        Some(doc) => seq![doc],
        None => seq![],
    });
    assert(warnings_in(index, one, targets) =~= warnings_of(index, field_ids(items[i].1)));
    assert(structs_in(index, items, targets) =~= structs_in(index, items.take(i), targets)
        + structs_in(index, one, targets) + structs_in(index, items.skip(i + 1), targets));
    assert(warnings_in(index, items, targets) =~= warnings_in(index, items.take(i), targets)
        + warnings_in(index, one, targets) + warnings_in(index, items.skip(i + 1), targets));
}

/// Any other item is passed over.
pub proof fn law_other_items_are_passed_over(
    index: Index,
    items: Index,
    targets: Option<Seq<Seq<char>>>,
    i: int,
)
    requires
        0 <= i < items.len(),
        forall|name: Seq<char>| !#[trigger] is_target(items[i].1, name, targets),
    ensures
        structs_in(index, items, targets) == structs_in(index, items.take(i), targets) + structs_in(
            index,
            items.skip(i + 1),
            targets,
        ),
        warnings_in(index, items, targets) == warnings_in(index, items.take(i), targets)
            + warnings_in(index, items.skip(i + 1), targets),
{
    let one = seq![items[i]];
    lemma_target(items[i].1, targets);
    assert(items =~= items.take(i) + (one + items.skip(i + 1)));
    lemma_items_in_parts(index, items.take(i), one + items.skip(i + 1), targets);
    lemma_items_in_parts(index, one, items.skip(i + 1), targets);
    assert(one.drop_last().len() == 0);
    reveal_with_fuel(structs_in, 2);
    reveal_with_fuel(warnings_in, 2);
    assert(structs_in(index, one, targets) =~= seq![]);
    assert(warnings_in(index, one, targets) =~= seq![]);
    assert(structs_in(index, items, targets) =~= structs_in(index, items.take(i), targets)
        + structs_in(index, items.skip(i + 1), targets));
    assert(warnings_in(index, items, targets) =~= warnings_in(index, items.take(i), targets)
        + warnings_in(index, items.skip(i + 1), targets));
}

/// Without items there is nothing to document, to warn of or to look up.
pub proof fn law_nothing_without_items(index: Index, targets: Option<Seq<Seq<char>>>)
    ensures
        structs_in(index, seq![], targets).len() == 0,
        warnings_in(index, seq![], targets).len() == 0,
        constants_in(index, seq![], targets).is_empty(),
{
}

/// The constants to look up are those that a struct that is a target refers to.
pub proof fn law_constants_of_targets(
    index: Index,
    items: Index,
    targets: Option<Seq<Seq<char>>>,
    constant: Seq<char>,
)
    ensures
        constants_in(index, items, targets).contains(constant) <==> exists|i: int, name: Seq<char>|
            0 <= i < items.len() && #[trigger] is_target(items[i].1, name, targets)
                && struct_constants(index, items[i].1).contains(constant),
    decreases items.len(),
{
    if items.len() > 0 {
        let n = items.len() - 1;
        let earlier = items.drop_last();
        law_constants_of_targets(index, earlier, targets, constant);
        lemma_target(items[n].1, targets);
        if exists|i: int, name: Seq<char>|
            0 <= i < earlier.len() && #[trigger] is_target(earlier[i].1, name, targets)
                && struct_constants(index, earlier[i].1).contains(constant) {
            let (i, name) = choose|i: int, name: Seq<char>|
                0 <= i < earlier.len() && #[trigger] is_target(earlier[i].1, name, targets)
                    && struct_constants(index, earlier[i].1).contains(constant);
            assert(is_target(items[i].1, name, targets));
        }
        if is_wanted(items[n].1, targets) && struct_constants(index, items[n].1).contains(
            constant,
        ) {
            let name = choose|name: Seq<char>| #[trigger] is_target(items[n].1, name, targets);
            assert(is_target(items[n].1, name, targets));
        }
        if exists|i: int, name: Seq<char>|
            0 <= i < items.len() && #[trigger] is_target(items[i].1, name, targets)
                && struct_constants(index, items[i].1).contains(constant) {
            let (i, name) = choose|i: int, name: Seq<char>|
                0 <= i < items.len() && #[trigger] is_target(items[i].1, name, targets)
                    && struct_constants(index, items[i].1).contains(constant);
            if i < n {
                assert(is_target(earlier[i].1, name, targets));
            }
        }
    }
}

/// The indentation in the documentation of a configuration file can be cut off if and only if that
/// of every struct that is a target can. Without an index there is nothing to cut off.
pub proof fn law_clean_config_has_clean_targets(
    rustdoc_json: JsonModel,
    targets: Option<Seq<Seq<char>>>,
)
    ensures
        config_cuts_cleanly(rustdoc_json, targets) <==> (object_at(
            rustdoc_json,
            seq!["index"@],
        ) matches Some(index) ==> forall|i: int, name: Seq<char>|
            0 <= i < index.len() && #[trigger] is_target(index[i].1, name, targets)
                ==> struct_cuts_cleanly(index, index[i].1)),
{
    if let Some(index) = object_at(rustdoc_json, seq!["index"@]) {
        assert forall|i: int| 0 <= i < index.len() implies is_wanted(
            (#[trigger] index[i]).1,
            targets,
        ) == exists|name: Seq<char>| #[trigger] is_target(index[i].1, name, targets) by {
            lemma_target(index[i].1, targets);
        }
        if forall|i: int, name: Seq<char>|
            0 <= i < index.len() && #[trigger] is_target(index[i].1, name, targets)
                ==> struct_cuts_cleanly(index, index[i].1) {
            assert forall|i: int|
                0 <= i < index.len() && is_wanted((#[trigger] index[i]).1, targets) implies
                struct_cuts_cleanly(index, index[i].1) by {
                let name = choose|name: Seq<char>| #[trigger]
                    is_target(index[i].1, name, targets);
                assert(is_target(index[i].1, name, targets));
            }
        }
    }
}

/// The structs and the targets are viewed one by one.
pub proof fn law_structs_and_targets_are_viewed(structs: Seq<StructDoc>, targets: Vec<String>)
    ensures
        struct_views(structs) == Seq::new(structs.len(), |i: int| structs[i]@),
        target_views(Some(targets)) == Some(Seq::new(targets@.len(), |i: int| targets@[i]@)),
        target_views(None) is None,
{
    assert(struct_views(structs) =~= Seq::new(structs.len(), |i: int| structs[i]@));
    assert(target_views(Some(targets))->0 =~= Seq::new(targets@.len(), |i: int| targets@[i]@));
}

} // verus!
