use vstd::prelude::*;

verus! {

/// Strictly increasing sequences hold each value once, in ascending order.
pub open spec fn strictly_increasing(s: Seq<u32>) -> bool {
    forall|i: int, j: int| 0 <= i < j < s.len() ==> s[i] < s[j]
}

/// An ordered set of small integers (table handles), iterated in ascending order.
#[derive(Debug)]
pub struct IndexSet {
    items: Vec<u32>,
}

impl IndexSet {
    #[verifier::type_invariant]
    spec fn items_sorted(self) -> bool {
        strictly_increasing(self.items@)
    }

    /// The members in ascending order.
    pub closed spec fn elements(self) -> Seq<u32> {
        self.items@
    }

    /// The members as a set.
    pub open spec fn view(self) -> Set<u32> {
        self.elements().to_set()
    }

    /// Creates an empty set.
    pub fn new() -> (set: IndexSet)
        ensures
            set.elements() == Seq::<u32>::empty(),
            set.view() == Set::<u32>::empty(),
    {
        let set = IndexSet { items: Vec::new() };
        assert(set.elements().to_set() =~= Set::<u32>::empty());
        set
    }

    /// Creates a set of one member.
    pub fn singleton(value: u32) -> (set: IndexSet)
        ensures
            set.elements() == seq![value],
            set.view() == Set::<u32>::empty().insert(value),
    {
        let mut items = Vec::new();
        items.push(value);
        let set = IndexSet { items };
        assert(set.elements() =~= seq![value]);
        assert(set.elements().to_set() =~= Set::<u32>::empty().insert(value)) by {
            assert(set.elements()[0] == value);
        }
        set
    }

    /// Number of members.
    pub fn len(&self) -> (length: usize)
        ensures
            length == self.elements().len(),
            strictly_increasing(self.elements()),
    {
        proof {
            use_type_invariant(self);
        }
        self.items.len()
    }

    /// The member at position `index` in ascending order.
    pub fn get(&self, index: usize) -> (value: u32)
        requires
            index < self.elements().len(),
        ensures
            value == self.elements()[index as int],
    {
        self.items[index]
    }

    /// Position where `value` is or would be inserted.
    fn position(&self, value: u32) -> (position: usize)
        ensures
            position <= self.items@.len(),
            forall|i: int| 0 <= i < position ==> self.items@[i] < value,
            forall|i: int| position <= i < self.items@.len() ==> self.items@[i] >= value,
    {
        proof {
            use_type_invariant(self);
        }
        let mut index: usize = 0;
        while index < self.items.len() && self.items[index] < value
            invariant
                index <= self.items@.len(),
                strictly_increasing(self.items@),
                forall|i: int| 0 <= i < index ==> self.items@[i] < value,
            decreases self.items@.len() - index,
        {
            index = index + 1;
        }
        proof {
            assert forall|i: int| index <= i < self.items@.len() implies self.items@[i] >= value by {
                if i > index {
                    assert(self.items@[index as int] < self.items@[i]);
                }
            }
        }
        index
    }

    /// Returns whether `value` is a member.
    pub fn contains(&self, value: u32) -> (found: bool)
        ensures
            found == self.view().contains(value),
    {
        proof {
            use_type_invariant(self);
        }
        let position = self.position(value);
        let found = position < self.items.len() && self.items[position] == value;
        proof {
            if !found {
                assert(!self.items@.contains(value));
            } else {
                assert(self.items@[position as int] == value);
            }
        }
        found
    }

    /// Adds `value`; returns whether it was absent.
    pub fn insert(&mut self, value: u32) -> (added: bool)
        ensures
            final(self).view() == old(self).view().insert(value),
            added == !old(self).view().contains(value),
    {
        proof {
            use_type_invariant(&*self);
        }
        let position = self.position(value);
        if position < self.items.len() && self.items[position] == value {
            proof {
                assert(self.items@.contains(value));
                assert(self.view() =~= self.view().insert(value));
            }
            return false;
        }
        let ghost before = self.items@;
        let mut items = Vec::new();
        std::mem::swap(&mut items, &mut self.items);
        items.insert(position, value);
        proof {
            assert(!before.contains(value)) by {
                if before.contains(value) {
                    let k = choose|k: int| 0 <= k < before.len() && before[k] == value;
                    if k < position {
                    } else {
                        assert(before[position as int] >= value);
                        if k > position {
                            assert(before[position as int] < before[k]);
                        }
                    }
                }
            }
            assert(strictly_increasing(items@)) by {
                assert forall|i: int, j: int| 0 <= i < j < items@.len() implies items@[i] < items@[j] by {
                    if j < position {
                        assert(items@[i] == before[i] && items@[j] == before[j]);
                    } else if j == position {
                        assert(items@[i] == before[i]);
                    } else if i < position {
                        assert(items@[i] == before[i] && items@[j] == before[j - 1]);
                    } else if i == position {
                        assert(items@[j] == before[j - 1]);
                    } else {
                        assert(items@[i] == before[i - 1] && items@[j] == before[j - 1]);
                    }
                }
            }
            assert(items@.to_set() =~= before.to_set().insert(value)) by {
                assert forall|x: u32| items@.contains(x) <==> before.contains(x) || x == value by {
                    if items@.contains(x) {
                        let k = choose|k: int| 0 <= k < items@.len() && items@[k] == x;
                        if k < position {
                            assert(before[k] == x);
                        } else if k > position {
                            assert(before[k - 1] == x);
                        }
                    }
                    if before.contains(x) {
                        let k = choose|k: int| 0 <= k < before.len() && before[k] == x;
                        if k < position {
                            assert(items@[k] == x);
                        } else {
                            assert(items@[k + 1] == x);
                        }
                    }
                    if x == value {
                        assert(items@[position as int] == value);
                    }
                }
            }
        }
        self.items = items;
        true
    }

    /// Adds every member of `other`.
    pub fn extend(&mut self, other: &IndexSet)
        ensures
            final(self).view() == old(self).view().union(other.view()),
    {
        let mut index: usize = 0;
        while index < other.len()
            invariant
                index <= other.elements().len(),
                self.view() == old(self).view().union(other.elements().subrange(0, index as int).to_set()),
            decreases other.elements().len() - index,
        {
            let value = other.get(index);
            self.insert(value);
            proof {
                assert(other.elements().subrange(0, index + 1).to_set() =~= other.elements().subrange(0, index as int).to_set().insert(value)) by {
                    let s = other.elements().subrange(0, index + 1);
                    let t = other.elements().subrange(0, index as int);
                    assert forall|x: u32| s.contains(x) <==> t.contains(x) || x == value by {
                        if s.contains(x) {
                            let k = choose|k: int| 0 <= k < s.len() && s[k] == x;
                            if k < index {
                                assert(t[k] == x);
                            }
                        }
                        if t.contains(x) {
                            let k = choose|k: int| 0 <= k < t.len() && t[k] == x;
                            assert(s[k] == x);
                        }
                        if x == value {
                            assert(s[index as int] == value);
                        }
                    }
                }
                assert(self.view() =~= old(self).view().union(other.elements().subrange(0, index + 1).to_set()));
            }
            index = index + 1;
        }
        assert(other.elements().subrange(0, index as int) =~= other.elements());
    }

    /// Returns whether both sets have the same members.
    pub fn same_members(&self, other: &IndexSet) -> (same: bool)
        ensures
            same == (self.view() == other.view()),
    {
        proof {
            use_type_invariant(self);
            use_type_invariant(other);
        }
        if self.items.len() != other.items.len() {
            proof {
                if self.view() == other.view() {
                    lemma_sorted_sets_equal(self.items@, other.items@);
                }
            }
            return false;
        }
        let mut index: usize = 0;
        while index < self.items.len()
            invariant
                self.items@.len() == other.items@.len(),
                strictly_increasing(self.items@),
                strictly_increasing(other.items@),
                index <= self.items@.len(),
                forall|k: int| 0 <= k < index ==> self.items@[k] == other.items@[k],
            decreases self.items@.len() - index,
        {
            if self.items[index] != other.items[index] {
                proof {
                    if self.view() == other.view() {
                        lemma_sorted_sets_equal(self.items@, other.items@);
                    }
                }
                return false;
            }
            index = index + 1;
        }
        assert(self.items@ =~= other.items@);
        true
    }

    /// A set with the same members.
    pub fn copy(&self) -> (set: IndexSet)
        ensures
            set.elements() == self.elements(),
            set.view() == self.view(),
            strictly_increasing(self.elements()),
    {
        proof {
            use_type_invariant(self);
        }
        let items = self.items.clone();
        assert(items@ =~= self.items@);
        IndexSet { items }
    }
}

/// A strictly increasing sequence holds as many members as its length, and at most
/// one per `u32` value.
pub proof fn lemma_increasing_len(s: Seq<u32>)
    requires
        strictly_increasing(s),
    ensures
        s.to_set().len() == s.len(),
        s.len() <= 0x1_0000_0000,
        s.to_set().finite(),
{
    assert(s.no_duplicates()) by {
        assert forall|i: int, j: int| 0 <= i < s.len() && 0 <= j < s.len() && i != j implies s[i] != s[j] by {
            if i < j {
                assert(s[i] < s[j]);
            } else {
                assert(s[j] < s[i]);
            }
        }
    }
    s.unique_seq_to_set();
    lemma_increasing_at_least_index(s, s.len() as int);
    if s.len() > 0 {
        assert(s[s.len() - 1] >= s.len() - 1);
    }
}

proof fn lemma_increasing_at_least_index(s: Seq<u32>, n: int)
    requires
        strictly_increasing(s),
        0 <= n <= s.len(),
    ensures
        forall|i: int| 0 <= i < n ==> s[i] >= i,
    decreases n,
{
    if n > 0 {
        lemma_increasing_at_least_index(s, n - 1);
        if n >= 2 {
            assert(s[n - 2] < s[n - 1]);
        }
    }
}

/// Two strictly increasing sequences with the same members are equal.
pub proof fn lemma_sorted_sets_equal(a: Seq<u32>, b: Seq<u32>)
    requires
        strictly_increasing(a),
        strictly_increasing(b),
        a.to_set() == b.to_set(),
    ensures
        a == b,
    decreases a.len() + b.len(),
{
    if a.len() == 0 {
        if b.len() > 0 {
            assert(b.to_set().contains(b[0]));
            assert(!a.to_set().contains(b[0]));
        }
        assert(a =~= b);
    } else if b.len() == 0 {
        assert(a.to_set().contains(a[0]));
    } else {
        let la = a.last();
        let lb = b.last();
        assert(a.to_set().contains(la));
        assert(b.to_set().contains(lb));
        assert(b.contains(la));
        assert(a.contains(lb));
        let ka = choose|k: int| 0 <= k < b.len() && b[k] == la;
        let kb = choose|k: int| 0 <= k < a.len() && a[k] == lb;
        if la < lb {
            assert(a[kb] <= la) by {
                if kb < a.len() - 1 {
                    assert(a[kb] < a[a.len() - 1]);
                }
            }
        }
        if lb < la {
            assert(b[ka] <= lb) by {
                if ka < b.len() - 1 {
                    assert(b[ka] < b[b.len() - 1]);
                }
            }
        }
        assert(la == lb);
        let a2 = a.drop_last();
        let b2 = b.drop_last();
        assert(a2.to_set() =~= b2.to_set()) by {
            assert forall|x: u32| a2.contains(x) <==> b2.contains(x) by {
                if a2.contains(x) {
                    let k = choose|k: int| 0 <= k < a2.len() && a2[k] == x;
                    assert(a[k] < la);
                    assert(a.contains(x));
                    assert(b.to_set().contains(x));
                    let m = choose|m: int| 0 <= m < b.len() && b[m] == x;
                    assert(m != b.len() - 1);
                    assert(b2[m] == x);
                }
                if b2.contains(x) {
                    let k = choose|k: int| 0 <= k < b2.len() && b2[k] == x;
                    assert(b[k] < lb);
                    assert(b.contains(x));
                    assert(a.to_set().contains(x));
                    let m = choose|m: int| 0 <= m < a.len() && a[m] == x;
                    assert(m != a.len() - 1);
                    assert(a2[m] == x);
                }
            }
        }
        lemma_sorted_sets_equal(a2, b2);
        assert(a =~= a2.push(la));
        assert(b =~= b2.push(lb));
    }
}

} // verus!
