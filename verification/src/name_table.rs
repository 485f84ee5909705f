use vstd::prelude::*;
use crate::text::same_text;

verus! {

/// The value bound to `key` by the latest entry with that key.
pub open spec fn lookup<V>(entries: Seq<(String, V)>, key: Seq<char>) -> Option<V>
    decreases entries.len(),
{
    if entries.len() == 0 {
        None
    } else if entries.last().0@ == key {
        Some(entries.last().1)
    } else {
        lookup(entries.drop_last(), key)
    }
}

/// A map from names to values; binding a name again replaces its value.
#[derive(Debug, Clone)]
pub struct NameTable<V> {
    entries: Vec<(String, V)>,
}

impl<V: Copy> NameTable<V> {
    /// The value bound to `key`, if any.
    pub closed spec fn get(&self, key: Seq<char>) -> Option<V> {
        lookup(self.entries@, key)
    }

    /// The bindings as a map.
    pub open spec fn map(&self) -> Map<Seq<char>, V> {
        Map::new(|k: Seq<char>| self.get(k) is Some, |k: Seq<char>| self.get(k)->Some_0)
    }

    /// Creates a table without bindings.
    pub fn new() -> (table: NameTable<V>)
        ensures
            forall|k: Seq<char>| table.get(k) is None,
    {
        NameTable { entries: Vec::new() }
    }

    /// Binds `key` to `value`, replacing any earlier binding of `key`.
    pub fn insert(&mut self, key: String, value: V)
        ensures
            final(self).get(key@) == Some(value),
            forall|k: Seq<char>| k != key@ ==> final(self).get(k) == old(self).get(k),
    {
        let ghost k0 = key@;
        self.entries.push((key, value));
        proof {
            assert(self.entries@.drop_last() =~= old(self).entries@);
        }
    }

    /// Returns the value bound to `key`.
    pub fn get_value(&self, key: &str) -> (value: Option<V>)
        ensures
            value == self.get(key@),
    {
        let mut index = self.entries.len();
        assert(self.entries@.subrange(0, index as int) =~= self.entries@);
        while index > 0
            invariant
                index <= self.entries@.len(),
                lookup(self.entries@, key@) == lookup(self.entries@.subrange(0, index as int), key@),
            decreases index,
        {
            let ghost prefix = self.entries@.subrange(0, index as int);
            assert(prefix.drop_last() =~= self.entries@.subrange(0, index - 1));
            if same_text(self.entries[index - 1].0.as_str(), key) {
                return Some(self.entries[index - 1].1);
            }
            index = index - 1;
        }
        None
    }

    /// Returns whether `key` is bound.
    pub fn contains_key(&self, key: &str) -> (found: bool)
        ensures
            found == (self.get(key@) is Some),
    {
        self.get_value(key).is_some()
    }
}

} // verus!
