//! Laws on sets of names, and on maps keyed by names.

use vstd::prelude::*;

use crate::names::{ascends, entry_of, has_name, name_views, NameMap, NameSet};
use crate::text::before;

verus! {

/// The texts of names are those of each name.
pub proof fn law_names_are_viewed(names: Seq<String>, i: int)
    ensures
        name_views(names).len() == names.len(),
        0 <= i < names.len() ==> name_views(names)[i] == names[i]@,
{
}

/// A set holds exactly the names that are listed, and a valid one lists none of them twice.
pub proof fn law_set_holds_its_names(set: NameSet, name: Seq<char>)
    ensures
        set@.contains(name) <==> exists|i: int|
            0 <= i < set.names@.len() && (#[trigger] set.names@[i])@ == name,
        set.wf() <==> forall|i: int, j: int|
            0 <= i < j < set.names@.len() ==> (#[trigger] set.names@[i])@ != (
            #[trigger] set.names@[j])@,
{
    let names = name_views(set.names@);
    if names.contains(name) {
        let i = choose|i: int| 0 <= i < names.len() && names[i] == name;
        assert(set.names@[i]@ == name);
    }
    if exists|i: int| 0 <= i < set.names@.len() && (#[trigger] set.names@[i])@ == name {
        let i = choose|i: int| 0 <= i < set.names@.len() && (#[trigger] set.names@[i])@ == name;
        assert(names[i] == name);
    }
    if set.wf() {
        assert forall|i: int, j: int| 0 <= i < j < set.names@.len() implies (
        #[trigger] set.names@[i])@ != (#[trigger] set.names@[j])@ by {
            assert(names[i] != names[j]);
        }
    }
    if forall|i: int, j: int|
        0 <= i < j < set.names@.len() ==> (#[trigger] set.names@[i])@ != (
        #[trigger] set.names@[j])@ {
        assert forall|i: int, j: int|
            0 <= i < names.len() && 0 <= j < names.len() && i != j implies names[i]
            != names[j] by {
            if i < j {
                assert(set.names@[i]@ != set.names@[j]@);
            } else {
                assert(set.names@[j]@ != set.names@[i]@);
            }
        }
    }
}

/// A valid map has exactly the names of its entries, each with the value of its entry.
pub proof fn law_map_holds_its_entries<V>(map: NameMap<V>, name: Seq<char>)
    requires
        map.wf(),
    ensures
        map@.contains_key(name) <==> exists|i: int|
            0 <= i < map.entries@.len() && (#[trigger] map.entries@[i]).0@ == name,
        forall|i: int|
            0 <= i < map.entries@.len() && (#[trigger] map.entries@[i]).0@ == name ==> map@[name]
                == map.entries@[i].1,
{
    assert forall|i: int|
        0 <= i < map.entries@.len() && (#[trigger] map.entries@[i]).0@ == name implies map@[name]
        == map.entries@[i].1 by {
        let k = entry_of(map.entries@, name);
        assert(has_name(map.entries@, name));
        assert(map.entries@[k].0@ == name);
        assert(i == k);
    }
}

/// Names ascend where each comes before all that stand behind it.
pub proof fn law_names_ascend(names: Seq<Seq<char>>, i: int, j: int)
    requires
        ascends(names),
        0 <= i < j < names.len(),
    ensures
        before(names[i], names[j]),
        names[i] != names[j],
{
    crate::text::lemma_before_total(names[i], names[j]);
}

} // verus!
