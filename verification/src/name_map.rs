use crate::text::str_eq;
use vstd::prelude::*;
use vstd::string::*;

verus! {

/// A small table keyed by name. It is a map from names to values; it also
/// numbers its entries, so that a caller can walk them.
pub struct NameMap<V> {
    entries: Vec<(String, V)>,
}

/// No name stands in two slots.
pub open spec fn distinct_names(names: Seq<Seq<char>>) -> bool {
    forall|i: int, j: int|
        #![trigger names[i], names[j]]
        0 <= i < j < names.len() ==> names[i] != names[j]
}

impl<V> NameMap<V> {
    /// The names held, slot by slot.
    pub closed spec fn names(&self) -> Seq<Seq<char>> {
        self.entries@.map_values(|e: (String, V)| e.0@)
    }

    /// The values held, slot by slot.
    pub closed spec fn values(&self) -> Seq<V> {
        self.entries@.map_values(|e: (String, V)| e.1)
    }

    /// No name stands in two slots.
    pub closed spec fn wf(&self) -> bool {
        distinct_names(self.names())
    }

    /// The slot that holds `name`, if one does.
    pub open spec fn slot_of(&self, name: Seq<char>) -> int {
        choose|i: int| 0 <= i < self.names().len() && self.names()[i] == name
    }

    /// The slots, read together, are the map: same length, no name twice,
    /// every slot an entry of the map and every entry of the map a slot.
    pub proof fn lemma_slots(&self)
        requires
            self.wf(),
        ensures
            self.names().len() == self.values().len(),
            distinct_names(self.names()),
            forall|i: int|
                0 <= i < self.names().len() ==> self@.contains_key(#[trigger] self.names()[i])
                    && self@[self.names()[i]] == self.values()[i],
            forall|name: Seq<char>| #[trigger]
                self@.contains_key(name) ==> 0 <= self.slot_of(name) < self.names().len()
                    && self.names()[self.slot_of(name)] == name,
    {
        assert forall|i: int| 0 <= i < self.names().len() implies self@.contains_key(
            #[trigger] self.names()[i],
        ) && self@[self.names()[i]] == self.values()[i] by {
            let name = self.names()[i];
            assert(self.names().contains(name));
            let j = self.slot_of(name);
            assert(i == j);
        }
    }
}

impl<V> NameMap<V> {
    /// The table has as many entries as slots.
    pub proof fn lemma_len(&self)
        requires
            self.wf(),
        ensures
            self@.dom().finite(),
            self@.len() == self.names().len(),
    {
        self.lemma_slots();
        let names = self.names();
        assert(names.no_duplicates());
        names.unique_seq_to_set();
        assert(self@.dom() =~= names.to_set());
    }
}

impl<V> View for NameMap<V> {
    type V = Map<Seq<char>, V>;

    closed spec fn view(&self) -> Map<Seq<char>, V> {
        Map::new(
            |name: Seq<char>| self.names().contains(name),
            |name: Seq<char>| self.values()[self.slot_of(name)],
        )
    }
}

impl<V> NameMap<V> {
    /// An empty table.
    pub fn new() -> (r: Self)
        ensures
            r.wf(),
            r@ == Map::<Seq<char>, V>::empty(),
            r.names().len() == 0,
    {
        let r = NameMap { entries: Vec::new() };
        proof {
            assert(r@ =~= Map::<Seq<char>, V>::empty());
        }
        r
    }

    /// How many entries the table holds.
    pub fn len(&self) -> (n: usize)
        ensures
            n == self.names().len(),
            n == self.values().len(),
    {
        self.entries.len()
    }

    /// The name in slot `i`.
    pub fn name_at(&self, i: usize) -> (name: &String)
        requires
            i < self.names().len(),
        ensures
            name@ == self.names()[i as int],
    {
        &self.entries[i].0
    }

    /// The value in slot `i`.
    pub fn value_at(&self, i: usize) -> (value: &V)
        requires
            i < self.names().len(),
        ensures
            *value == self.values()[i as int],
    {
        &self.entries[i].1
    }

    /// The slot that holds `name`.
    pub fn find(&self, name: &str) -> (r: Option<usize>)
        requires
            self.wf(),
        ensures
            match r {
                Some(i) => i < self.names().len() && self.names()[i as int] == name@
                    && self@.contains_key(name@) && i == self.slot_of(name@),
                None => !self@.contains_key(name@),
            },
    {
        proof {
            self.lemma_slots();
        }
        let mut i: usize = 0;
        while i < self.entries.len()
            invariant
                self.wf(),
                i <= self.entries.len(),
                forall|j: int| 0 <= j < i ==> self.names()[j] != name@,
            decreases self.entries.len() - i,
        {
            if str_eq(self.entries[i].0.as_str(), name) {
                proof {
                    assert(self.names()[i as int] == name@);
                    assert(self.names().contains(name@));
                    let j = self.slot_of(name@);
                    assert(0 <= j < self.names().len() && self.names()[j] == name@);
                    if j < i {
                        assert(self.names()[j] != self.names()[i as int]);
                    }
                    if i < j {
                        assert(self.names()[i as int] != self.names()[j]);
                    }
                }
                return Some(i);
            }
            i += 1;
        }
        None
    }

    /// Whether the table has an entry for `name`.
    pub fn contains_key(&self, name: &str) -> (r: bool)
        requires
            self.wf(),
        ensures
            r == self@.contains_key(name@),
    {
        self.find(name).is_some()
    }

    /// The value held for `name`.
    pub fn get(&self, name: &str) -> (r: Option<&V>)
        requires
            self.wf(),
        ensures
            match r {
                Some(value) => self@.contains_key(name@) && *value == self@[name@],
                None => !self@.contains_key(name@),
            },
    {
        proof {
            self.lemma_slots();
        }
        match self.find(name) {
            Some(i) => Some(&self.entries[i].1),
            None => None,
        }
    }

    /// Sets the value held for `name`, and returns the one it replaces.
    pub fn insert(&mut self, name: String, value: V) -> (replaced: Option<V>)
        requires
            old(self).wf(),
        ensures
            final(self).wf(),
            final(self)@ == old(self)@.insert(name@, value),
            replaced == if old(self)@.contains_key(name@) {
                Some(old(self)@[name@])
            } else {
                None
            },
    {
        proof {
            self.lemma_slots();
        }
        let ghost before = *self;
        match self.find(name.as_str()) {
            Some(i) => {
                let (_, replaced) = self.entries.remove(i);
                self.entries.insert(i, (name, value));
                proof {
                    assert(self.names() =~= before.names().update(i as int, name@));
                    assert(self.names() =~= before.names());
                    assert(self.values() =~= before.values().update(i as int, value));
                    self.lemma_slots();
                    assert(self@ =~= before@.insert(name@, value));
                }
                Some(replaced)
            },
            None => {
                self.entries.push((name, value));
                proof {
                    assert(self.names() =~= before.names().push(name@));
                    assert(self.values() =~= before.values().push(value));
                    assert(!before.names().contains(name@));
                    self.lemma_slots();
                    let after = before@.insert(name@, value);
                    assert forall|k: Seq<char>| after.contains_key(k) implies #[trigger]
                        self@.contains_key(k) && self@[k] == after[k] by {
                        if k == name@ {
                            assert(self.names()[before.names().len() as int] == k);
                        } else {
                            assert(self.names()[before.slot_of(k)] == k);
                        }
                    }
                    assert forall|k: Seq<char>| #[trigger] self@.contains_key(k) implies
                        after.contains_key(k) by {
                        let i = self.slot_of(k);
                        if i < before.names().len() {
                            assert(before.names()[i] == k);
                        }
                    }
                    assert(self@ =~= after);
                }
                None
            },
        }
    }

    /// Takes the entry for `name` out of the table.
    pub fn remove(&mut self, name: &str) -> (removed: Option<V>)
        requires
            old(self).wf(),
        ensures
            final(self).wf(),
            final(self)@ == old(self)@.remove(name@),
            removed == if old(self)@.contains_key(name@) {
                Some(old(self)@[name@])
            } else {
                None
            },
    {
        proof {
            self.lemma_slots();
        }
        let ghost before = *self;
        match self.find(name) {
            Some(i) => {
                let (_, removed) = self.entries.remove(i);
                proof {
                    assert(self.names() =~= before.names().remove(i as int));
                    assert(self.values() =~= before.values().remove(i as int));
                    self.lemma_slots();
                    let after = before@.remove(name@);
                    assert forall|k: Seq<char>| after.contains_key(k) implies #[trigger]
                        self@.contains_key(k) && self@[k] == after[k] by {
                        let j = before.slot_of(k);
                        if j < i {
                            assert(self.names()[j] == k);
                        } else {
                            assert(self.names()[j - 1] == k);
                        }
                    }
                    assert forall|k: Seq<char>| #[trigger] self@.contains_key(k) implies
                        after.contains_key(k) by {
                        let j = self.slot_of(k);
                        if j < i {
                            assert(before.names()[j] == k);
                        } else {
                            assert(before.names()[j + 1] == k);
                        }
                    }
                    assert(self@ =~= after);
                }
                Some(removed)
            },
            None => {
                proof {
                    assert(self@ =~= before@.remove(name@));
                }
                None
            },
        }
    }
}

} // verus!
