use vstd::prelude::*;
use crate::index_set::strictly_increasing;

verus! {

/// An ordered map from small integers (table handles) to values, iterated in
/// ascending key order.
#[derive(Debug)]
pub struct IndexMap<V: Copy> {
    entries: Vec<(u32, V)>,
}

pub open spec fn entry_keys<V>(entries: Seq<(u32, V)>) -> Seq<u32> {
    entries.map_values(|e: (u32, V)| e.0)
}

impl<V: Copy> IndexMap<V> {
    #[verifier::type_invariant]
    spec fn keys_sorted(self) -> bool {
        strictly_increasing(entry_keys(self.entries@))
    }

    /// The entries in ascending key order.
    pub closed spec fn entries(self) -> Seq<(u32, V)> {
        self.entries@
    }

    /// The keys in ascending order.
    pub open spec fn keys(self) -> Seq<u32> {
        entry_keys(self.entries())
    }

    /// The value stored under `key`, if any.
    pub closed spec fn get(self, key: u32) -> Option<V> {
        lookup_key(self.entries@, key)
    }

    /// The entries as a map.
    pub open spec fn as_map(self) -> Map<u32, V> {
        Map::new(|k: u32| self.get(k) is Some, |k: u32| self.get(k)->Some_0)
    }

    /// A map without entries maps nothing.
    pub proof fn lemma_no_entries(self)
        requires
            self.entries().len() == 0,
        ensures
            self.as_map() == Map::<u32, V>::empty(),
            self.keys().len() == 0,
    {
        assert(self.as_map() =~= Map::<u32, V>::empty());
    }

    /// Creates an empty map.
    pub fn new() -> (map: IndexMap<V>)
        ensures
            map.entries() == Seq::<(u32, V)>::empty(),
            forall|k: u32| map.get(k) is None,
    {
        let map = IndexMap { entries: Vec::new() };
        assert(entry_keys(map.entries@) =~= Seq::<u32>::empty());
        map
    }

    /// Number of entries.
    pub fn len(&self) -> (length: usize)
        ensures
            length == self.entries().len(),
            strictly_increasing(self.keys()),
            forall|i: int| 0 <= i < self.entries().len() ==> self.get(#[trigger] self.entries()[i].0) == Some(self.entries()[i].1),
            forall|k: u32| self.get(k) is Some <==> self.keys().contains(k),
    {
        proof {
            use_type_invariant(self);
            assert forall|i: int| 0 <= i < self.entries@.len() implies self.get(#[trigger] self.entries@[i].0) == Some(self.entries@[i].1) by {
                lemma_lookup_key(self.entries@, self.entries@[i].0);
            }
            assert forall|k: u32| self.get(k) is Some <==> self.keys().contains(k) by {
                lemma_lookup_key(self.entries@, k);
                if self.keys().contains(k) {
                    let j = choose|j: int| 0 <= j < self.keys().len() && self.keys()[j] == k;
                    assert(self.entries@[j].0 == k);
                }
                if self.get(k) is Some {
                    let j = choose|j: int| 0 <= j < self.entries@.len() && self.entries@[j].0 == k;
                    assert(self.keys()[j] == k);
                }
            }
        }
        self.entries.len()
    }

    /// The entry at position `index` in ascending key order.
    pub fn entry_at(&self, index: usize) -> (entry: (u32, V))
        requires
            index < self.entries().len(),
        ensures
            entry == self.entries()[index as int],
    {
        self.entries[index]
    }

    fn position(&self, key: u32) -> (position: usize)
        ensures
            position <= self.entries@.len(),
            forall|i: int| 0 <= i < position ==> self.entries@[i].0 < key,
            forall|i: int| position <= i < self.entries@.len() ==> self.entries@[i].0 >= key,
    {
        proof {
            use_type_invariant(self);
        }
        let mut index: usize = 0;
        while index < self.entries.len() && self.entries[index].0 < key
            invariant
                index <= self.entries@.len(),
                strictly_increasing(entry_keys(self.entries@)),
                forall|i: int| 0 <= i < index ==> self.entries@[i].0 < key,
            decreases self.entries@.len() - index,
        {
            index = index + 1;
        }
        proof {
            assert forall|i: int| index <= i < self.entries@.len() implies self.entries@[i].0 >= key by {
                if i > index {
                    assert(entry_keys(self.entries@)[index as int] < entry_keys(self.entries@)[i]);
                }
            }
        }
        index
    }

    /// The value stored under `key`, if any.
    pub fn get_value(&self, key: u32) -> (value: Option<V>)
        ensures
            value == self.get(key),
    {
        proof {
            use_type_invariant(self);
            lemma_lookup_key(self.entries@, key);
        }
        let position = self.position(key);
        if position < self.entries.len() && self.entries[position].0 == key {
            Some(self.entries[position].1)
        } else {
            proof {
                assert forall|i: int| 0 <= i < self.entries@.len() implies self.entries@[i].0 != key by {
                    if i > position {
                        assert(entry_keys(self.entries@)[position as int] < entry_keys(self.entries@)[i]);
                    }
                }
            }
            None
        }
    }

    /// Returns whether `key` has an entry.
    pub fn contains_key(&self, key: u32) -> (found: bool)
        ensures
            found == (self.get(key) is Some),
    {
        self.get_value(key).is_some()
    }

    /// Stores `value` under `key` unless `key` already has an entry.
    pub fn insert_if_absent(&mut self, key: u32, value: V)
        ensures
            old(self).get(key) is Some ==> final(self).get(key) == old(self).get(key),
            old(self).get(key) is None ==> final(self).get(key) == Some(value),
            forall|k: u32| k != key ==> final(self).get(k) == old(self).get(k),
            forall|k: u32| final(self).get(k) is Some <==> (old(self).get(k) is Some || k == key),
    {
        proof {
            use_type_invariant(&*self);
        }
        let position = self.position(key);
        if position < self.entries.len() && self.entries[position].0 == key {
            proof {
                lemma_lookup_key(self.entries@, key);
            }
            return;
        }
        let ghost before = self.entries@;
        proof {
            assert forall|i: int| 0 <= i < before.len() implies before[i].0 != key by {
                if i > position {
                    assert(entry_keys(before)[position as int] < entry_keys(before)[i]);
                }
            }
        }
        let mut entries = Vec::new();
        std::mem::swap(&mut entries, &mut self.entries);
        entries.insert(position, (key, value));
        proof {
            let after = entries@;
            assert(strictly_increasing(entry_keys(after))) by {
                assert forall|i: int, j: int| 0 <= i < j < after.len() implies entry_keys(after)[i] < entry_keys(after)[j] by {
                    if j < position {
                        assert(after[i] == before[i] && after[j] == before[j]);
                        assert(entry_keys(before)[i] < entry_keys(before)[j]);
                    } else if j == position {
                        assert(after[i] == before[i]);
                    } else if i < position {
                        assert(after[i] == before[i] && after[j] == before[j - 1]);
                        assert(entry_keys(before)[i] < entry_keys(before)[j - 1]);
                    } else if i == position {
                        assert(after[j] == before[j - 1]);
                    } else {
                        assert(after[i] == before[i - 1] && after[j] == before[j - 1]);
                        assert(entry_keys(before)[i - 1] < entry_keys(before)[j - 1]);
                    }
                }
            }
        }
        self.entries = entries;
        proof {
            let after = self.entries@;
            assert(after[position as int] == (key, value));
            lemma_lookup_key(after, key);
            lemma_lookup_key(before, key);
            assert forall|k: u32| k != key implies self.get(k) == old(self).get(k) by {
                lemma_lookup_key(after, k);
                lemma_lookup_key(before, k);
                if exists|i: int| 0 <= i < before.len() && before[i].0 == k {
                    let i = choose|i: int| 0 <= i < before.len() && before[i].0 == k;
                    let ai = if i < position { i } else { i + 1 };
                    assert(after[ai] == before[i]);
                } else {
                    assert forall|j: int| 0 <= j < after.len() implies after[j].0 != k by {
                        if j < position {
                            assert(before[j] == after[j]);
                        } else if j > position {
                            assert(before[j - 1] == after[j]);
                        }
                    }
                }
            }
        }
    }

    /// A map with the same entries.
    pub fn copy(&self) -> (map: IndexMap<V>)
        ensures
            map.entries() == self.entries(),
    {
        proof {
            use_type_invariant(self);
        }
        let mut entries: Vec<(u32, V)> = Vec::new();
        let mut index: usize = 0;
        while index < self.entries.len()
            invariant
                index <= self.entries@.len(),
                entries@ == self.entries@.subrange(0, index as int),
            decreases self.entries@.len() - index,
        {
            entries.push(self.entries[index]);
            index = index + 1;
            assert(entries@ =~= self.entries@.subrange(0, index as int));
        }
        assert(self.entries@.subrange(0, index as int) =~= self.entries@);
        IndexMap { entries }
    }
}

/// The value of the latest entry with key `key`.
pub open spec fn lookup_key<V>(entries: Seq<(u32, V)>, key: u32) -> Option<V>
    decreases entries.len(),
{
    if entries.len() == 0 {
        None
    } else if entries.last().0 == key {
        Some(entries.last().1)
    } else {
        lookup_key(entries.drop_last(), key)
    }
}

proof fn lemma_lookup_key<V>(entries: Seq<(u32, V)>, key: u32)
    requires
        strictly_increasing(entry_keys(entries)),
    ensures
        forall|i: int| 0 <= i < entries.len() && entries[i].0 == key ==> lookup_key(entries, key) == Some(entries[i].1),
        (forall|i: int| 0 <= i < entries.len() ==> entries[i].0 != key) ==> lookup_key(entries, key) is None,
        lookup_key(entries, key) is Some ==> exists|i: int| 0 <= i < entries.len() && entries[i].0 == key,
    decreases entries.len(),
{
    if entries.len() > 0 {
        let rest = entries.drop_last();
        assert(strictly_increasing(entry_keys(rest))) by {
            assert forall|i: int, j: int| 0 <= i < j < rest.len() implies entry_keys(rest)[i] < entry_keys(rest)[j] by {
                assert(entry_keys(entries)[i] < entry_keys(entries)[j]);
            }
        }
        lemma_lookup_key(rest, key);
        assert forall|i: int| 0 <= i < entries.len() && entries[i].0 == key implies lookup_key(entries, key) == Some(entries[i].1) by {
            if i < entries.len() - 1 {
                lemma_unique_key(entries, i, entries.len() - 1);
                assert(rest[i] == entries[i]);
            }
        }
        if lookup_key(entries, key) is Some {
            if entries.last().0 != key {
                let i = choose|i: int| 0 <= i < rest.len() && rest[i].0 == key;
                assert(entries[i] == rest[i]);
            }
        }
        if forall|i: int| 0 <= i < entries.len() ==> entries[i].0 != key {
            assert forall|i: int| 0 <= i < rest.len() implies rest[i].0 != key by {
                assert(entries[i] == rest[i]);
            }
        }
    }
}

proof fn lemma_unique_key<V>(entries: Seq<(u32, V)>, i: int, j: int)
    requires
        strictly_increasing(entry_keys(entries)),
        0 <= i < entries.len(),
        0 <= j < entries.len(),
        i != j,
    ensures
        entries[i].0 != entries[j].0,
{
    if i < j {
        assert(entry_keys(entries)[i] < entry_keys(entries)[j]);
    } else {
        assert(entry_keys(entries)[j] < entry_keys(entries)[i]);
    }
}

} // verus!
