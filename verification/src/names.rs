//! Sets of names, and maps keyed by names.

use vstd::prelude::*;

use crate::text::{before, lemma_before_total, lemma_before_transitive, precedes, same};

verus! {

/// The characters of each name.
pub open spec fn name_views(names: Seq<String>) -> Seq<Seq<char>> {
    names.map_values(|name: String| name@)
}

/// A set of names. The names stand in the order in which they first came, none of them twice.
#[derive(Debug)]
pub struct NameSet {
    pub names: Vec<String>,
}

impl View for NameSet {
    type V = Set<Seq<char>>;

    open spec fn view(&self) -> Set<Seq<char>> {
        name_views(self.names@).to_set()
    }
}

impl NameSet {
    /// No name stands twice.
    pub open spec fn wf(self) -> bool {
        name_views(self.names@).no_duplicates()
    }

    /// The empty set.
    pub fn new() -> (set: NameSet)
        ensures
            set.wf(),
            set@ == Set::<Seq<char>>::empty(),
    {
        let set = NameSet { names: Vec::new() };
        proof {
            assert(name_views(set.names@).len() == 0);
            assert(set@ =~= Set::<Seq<char>>::empty());
        }
        set
    }

    /// How many names the set holds.
    pub fn len(&self) -> (n: usize)
        requires
            self.wf(),
        ensures
            self@.finite(),
            n == self@.len(),
    {
        proof {
            name_views(self.names@).unique_seq_to_set();
        }
        self.names.len()
    }

    /// Tells whether the set holds `name`.
    pub fn contains(&self, name: &str) -> (yes: bool)
        ensures
            yes == self@.contains(name@),
    {
        let mut i: usize = 0;
        while i < self.names.len()
            invariant
                i <= self.names.len(),
                forall|j: int| 0 <= j < i ==> (#[trigger] self.names@[j])@ != name@,
            decreases self.names.len() - i,
        {
            if same(self.names[i].as_str(), name) {
                proof {
                    assert(name_views(self.names@)[i as int] == name@);
                }
                return true;
            }
            i = i + 1;
        }
        proof {
            let all = name_views(self.names@);
            if all.contains(name@) {
                let j = choose|j: int| 0 <= j < all.len() && all[j] == name@;
                assert(all[j] == self.names@[j]@);
            }
        }
        false
    }

    /// Adds `name` to the set.
    pub fn insert(&mut self, name: String)
        requires
            old(self).wf(),
        ensures
            final(self).wf(),
            final(self)@ == old(self)@.insert(name@),
    {
        let ghost earlier = name_views(self.names@);
        let ghost added = name@;
        if self.contains(name.as_str()) {
            proof {
                assert(self@.insert(name@) =~= self@);
            }
        } else {
            self.names.push(name);
            proof {
                let now = name_views(self.names@);
                assert(now =~= earlier.push(added));
                assert forall|i: int, j: int|
                    0 <= i < now.len() && 0 <= j < now.len() && i != j implies now[i] != now[j] by {
                    if i < earlier.len() && j < earlier.len() {
                        assert(earlier[i] != earlier[j]);
                    } else if i < earlier.len() {
                        assert(earlier.contains(earlier[i]));
                    } else {
                        assert(earlier.contains(earlier[j]));
                    }
                }
                earlier.lemma_push_to_set_commute(added);
            }
        }
    }

    /// Adds all names of `other` to the set.
    pub fn extend(&mut self, other: NameSet)
        requires
            old(self).wf(),
        ensures
            final(self).wf(),
            final(self)@ == old(self)@.union(other@),
    {
        let ghost start = self@;
        let ghost all = name_views(other.names@);
        let mut i: usize = 0;
        proof {
            assert(start.union(all.take(0).to_set()) =~= start);
        }
        while i < other.names.len()
            invariant
                i <= other.names.len(),
                all == name_views(other.names@),
                self.wf(),
                self@ == start.union(all.take(i as int).to_set()),
            decreases other.names.len() - i,
        {
            self.insert(other.names[i].clone());
            proof {
                let earlier = all.take(i as int);
                let now = all.take(i + 1);
                earlier.lemma_push_to_set_commute(all[i as int]);
                assert(now =~= earlier.push(all[i as int]));
                assert(start.union(now.to_set()) =~= start.union(earlier.to_set()).insert(
                    all[i as int],
                ));
            }
            i = i + 1;
        }
        proof {
            assert(all.take(i as int) =~= all);
        }
    }
}

/// A map from names to values. The entries stand in the order in which their names first came, none
/// of them twice.
#[derive(Debug)]
pub struct NameMap<V> {
    pub entries: Vec<(String, V)>,
}

/// Whether an entry has the name `name`.
pub open spec fn has_name<V>(entries: Seq<(String, V)>, name: Seq<char>) -> bool {
    exists|i: int| 0 <= i < entries.len() && (#[trigger] entries[i]).0@ == name
}

/// The index of the entry of `name`.
pub open spec fn entry_of<V>(entries: Seq<(String, V)>, name: Seq<char>) -> int {
    choose|i: int| 0 <= i < entries.len() && (#[trigger] entries[i]).0@ == name
}

impl<V> View for NameMap<V> {
    type V = Map<Seq<char>, V>;

    open spec fn view(&self) -> Map<Seq<char>, V> {
        Map::new(
            |name: Seq<char>| has_name(self.entries@, name),
            |name: Seq<char>| self.entries@[entry_of(self.entries@, name)].1,
        )
    }
}

impl<V> NameMap<V> {
    /// No name stands twice.
    pub open spec fn wf(self) -> bool {
        forall|i: int, j: int|
            0 <= i < j < self.entries@.len() ==> (#[trigger] self.entries@[i]).0@ != (
            #[trigger] self.entries@[j]).0@
    }

    /// The empty map.
    pub fn new() -> (map: NameMap<V>)
        ensures
            map.wf(),
            map@ == Map::<Seq<char>, V>::empty(),
    {
        let map = NameMap { entries: Vec::new() };
        proof {
            assert(map@ =~= Map::<Seq<char>, V>::empty());
        }
        map
    }

    proof fn lemma_entry(self, i: int)
        requires
            self.wf(),
            0 <= i < self.entries@.len(),
        ensures
            self@.contains_key(self.entries@[i].0@),
            self@[self.entries@[i].0@] == self.entries@[i].1,
    {
        let name = self.entries@[i].0@;
        let j = entry_of(self.entries@, name);
        assert(has_name(self.entries@, name));
        assert(self.entries@[j].0@ == name);
        assert(i == j);
    }

    /// The index of the entry of `name`, where there is one.
    fn position(&self, name: &str) -> (at: Option<usize>)
        requires
            self.wf(),
        ensures
            match at {
                Some(i) => i < self.entries@.len() && self.entries@[i as int].0@ == name@
                    && self@.contains_key(name@) && self@[name@] == self.entries@[i as int].1,
                None => !self@.contains_key(name@),
            },
    {
        let mut i: usize = 0;
        while i < self.entries.len()
            invariant
                i <= self.entries.len(),
                self.wf(),
                forall|j: int| 0 <= j < i ==> (#[trigger] self.entries@[j]).0@ != name@,
            decreases self.entries.len() - i,
        {
            if same(self.entries[i].0.as_str(), name) {
                proof {
                    self.lemma_entry(i as int);
                }
                return Some(i);
            }
            i = i + 1;
        }
        None
    }

    /// The value of `name`, where there is one.
    pub fn get(&self, name: &str) -> (value: Option<&V>)
        requires
            self.wf(),
        ensures
            match value {
                Some(value) => self@.contains_key(name@) && *value == self@[name@],
                None => !self@.contains_key(name@),
            },
    {
        match self.position(name) {
            Some(i) => Some(&self.entries[i].1),
            None => None,
        }
    }

    /// How many names have a value.
    pub fn len(&self) -> (n: usize)
        requires
            self.wf(),
        ensures
            self@.dom().finite(),
            n == self@.dom().len(),
    {
        proof {
            let names = Seq::new(self.entries@.len(), |i: int| self.entries@[i].0@);
            assert(names.no_duplicates());
            names.unique_seq_to_set();
            assert forall|name: Seq<char>| names.contains(name) <==> has_name(
                self.entries@,
                name,
            ) by {
                if names.contains(name) {
                    let i = choose|i: int| 0 <= i < names.len() && names[i] == name;
                    assert(self.entries@[i].0@ == name);
                }
                if has_name(self.entries@, name) {
                    let i = entry_of(self.entries@, name);
                    assert(names[i] == name);
                }
            }
            assert(names.to_set() =~= self@.dom());
        }
        self.entries.len()
    }

    /// Gives `name` the value `value`, in place of the one that it had.
    pub fn insert(&mut self, name: String, value: V)
        requires
            old(self).wf(),
        ensures
            final(self).wf(),
            final(self)@ == old(self)@.insert(name@, value),
    {
        let ghost earlier = *self;
        let ghost key = name@;
        match self.position(name.as_str()) {
            Some(i) => {
                self.entries.set(i, (name, value));
                proof {
                    assert(self.wf());
                    assert forall|n: Seq<char>| has_name(self.entries@, n) <==> has_name(
                        earlier.entries@,
                        n,
                    ) by {
                        if has_name(earlier.entries@, n) {
                            let k = entry_of(earlier.entries@, n);
                            assert(self.entries@[k].0@ == n);
                        }
                        if has_name(self.entries@, n) {
                            let k = entry_of(self.entries@, n);
                            assert(earlier.entries@[k].0@ == n);
                        }
                    }
                    assert forall|n: Seq<char>| self@.contains_key(n) implies self@[n]
                        == #[trigger] earlier@.insert(key, value)[n] by {
                        let k = entry_of(self.entries@, n);
                        self.lemma_entry(k);
                        if n == key {
                            self.lemma_entry(i as int);
                        } else {
                            assert(k != i);
                            earlier.lemma_entry(k);
                            assert(earlier.entries@[k].0@ == n);
                        }
                    }
                    assert(self@ =~= earlier@.insert(key, value));
                }
            },
            None => {
                self.entries.push((name, value));
                proof {
                    let n0 = earlier.entries@.len() as int;
                    assert forall|i: int, j: int| 0 <= i < j < self.entries@.len() implies (
                    #[trigger] self.entries@[i]).0@ != (#[trigger] self.entries@[j]).0@ by {
                        if j == n0 {
                            assert(earlier.entries@[i].0@ == self.entries@[i].0@);
                            assert(has_name(earlier.entries@, self.entries@[i].0@));
                        }
                    }
                    assert(self.wf());
                    assert forall|n: Seq<char>| has_name(self.entries@, n) <==> (has_name(
                        earlier.entries@,
                        n,
                    ) || n == key) by {
                        if has_name(earlier.entries@, n) {
                            let k = entry_of(earlier.entries@, n);
                            assert(self.entries@[k].0@ == n);
                        }
                        assert(self.entries@[n0].0@ == key);
                        if has_name(self.entries@, n) && n != key {
                            let k = entry_of(self.entries@, n);
                            assert(earlier.entries@[k].0@ == n);
                        }
                    }
                    assert forall|n: Seq<char>| self@.contains_key(n) implies self@[n]
                        == #[trigger] earlier@.insert(key, value)[n] by {
                        let k = entry_of(self.entries@, n);
                        self.lemma_entry(k);
                        if n == key {
                            self.lemma_entry(n0);
                        } else {
                            assert(k != n0);
                            earlier.lemma_entry(k);
                            assert(earlier.entries@[k].0@ == n);
                        }
                    }
                    assert(self@ =~= earlier@.insert(key, value));
                }
            },
        }
    }
}

/// Whether the names ascend in the order of code points. Then none of them stands twice.
pub open spec fn ascends(names: Seq<Seq<char>>) -> bool {
    forall|i: int, j: int|
        0 <= i < j < names.len() ==> before(#[trigger] names[i], #[trigger] names[j])
}

/// Puts `name` in its place among names that ascend, unless it is there.
pub fn insert_ascending(names: &mut Vec<String>, name: String)
    requires
        ascends(name_views(old(names)@)),
    ensures
        ascends(name_views(final(names)@)),
        name_views(final(names)@).to_set() == name_views(old(names)@).to_set().insert(name@),
{
    let ghost earlier = name_views(names@);
    let ghost added = name@;
    let mut i: usize = 0;
    while i < names.len() && precedes(names[i].as_str(), name.as_str())
        invariant
            i <= names.len(),
            earlier == name_views(names@),
            added == name@,
            forall|j: int| 0 <= j < i ==> before(#[trigger] earlier[j], added),
        decreases names.len() - i,
    {
        proof {
            assert(earlier[i as int] == names@[i as int]@);
        }
        i = i + 1;
    }
    if i < names.len() && same(names[i].as_str(), name.as_str()) {
        proof {
            assert(earlier[i as int] == names@[i as int]@);
            assert(earlier.contains(added));
            assert(earlier.to_set().insert(added) =~= earlier.to_set());
        }
        return;
    }
    proof {
        if i < names@.len() {
            assert(earlier[i as int] == names@[i as int]@);
            lemma_before_total(earlier[i as int], added);
        }
        assert forall|j: int| i <= j < earlier.len() implies before(
            added,
            #[trigger] earlier[j],
        ) by {
            if i < j {
                lemma_before_transitive(added, earlier[i as int], earlier[j]);
            }
        }
    }
    names.insert(i, name);
    proof {
        let now = name_views(names@);
        assert(now =~= earlier.insert(i as int, added));
        assert forall|a: int, b: int| 0 <= a < b < now.len() implies before(
            #[trigger] now[a],
            #[trigger] now[b],
        ) by {
            let x = if a < i { a } else { a - 1 };
            let y = if b < i { b } else { b - 1 };
            if a != i && b != i {
                assert(now[a] == earlier[x] && now[b] == earlier[y]);
            } else if a == i {
                assert(now[b] == earlier[y]);
            } else {
                assert(now[a] == earlier[x]);
            }
        }
        assert forall|n: Seq<char>| now.contains(n) <==> (earlier.contains(n) || n == added) by {
            if earlier.contains(n) {
                let k = choose|k: int| 0 <= k < earlier.len() && earlier[k] == n;
                assert(now[if k < i { k } else { k + 1 }] == n);
            }
            assert(now[i as int] == added);
            if now.contains(n) && n != added {
                let k = choose|k: int| 0 <= k < now.len() && now[k] == n;
                assert(earlier[if k < i { k } else { k - 1 }] == n);
            }
        }
        assert(now.to_set() =~= earlier.to_set().insert(added));
    }
}

} // verus!
