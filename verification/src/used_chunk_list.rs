//! The set of bucket indices that are in flight on one segment.

use vstd::prelude::*;

verus! {

/// A set over `[0, capacity)`, kept as one flag per index.
pub struct UsedChunkList {
    data: Vec<bool>,
}

impl UsedChunkList {
    /// The indices that are present.
    pub closed spec fn view(&self) -> Set<int> {
        Set::new(|i: int| 0 <= i < self.data.len() && self.data[i])
    }

    /// Number of indices the list ranges over.
    pub closed spec fn spec_capacity(&self) -> nat {
        self.data.len() as nat
    }

    /// Every member lies below the capacity.
    pub proof fn lemma_members_in_range(&self)
        ensures
            forall|i: int| #[trigger] self@.contains(i) ==> 0 <= i < self.spec_capacity(),
            self@.finite(),
    {
        let n = self.data.len() as int;
        let range = Set::new(|i: int| 0 <= i < n);
        assert(self@.subset_of(range));
        vstd::set_lib::lemma_int_range(0, n);
        assert(range =~= vstd::set_lib::set_int_range(0, n));
        vstd::set_lib::lemma_len_subset(self@, range);
    }

    /// An empty list over `[0, capacity)`.
    pub fn new(capacity: usize) -> (list: UsedChunkList)
        ensures
            list@ == Set::<int>::empty(),
            list.spec_capacity() == capacity,
    {
        let mut data: Vec<bool> = Vec::new();
        let mut i: usize = 0;
        while i < capacity
            invariant
                i <= capacity,
                data.len() == i,
                forall|j: int| 0 <= j < i ==> !data[j],
            decreases capacity - i,
        {
            data.push(false);
            i += 1;
        }
        let list = UsedChunkList { data };
        assert(list@ =~= Set::<int>::empty());
        list
    }

    pub fn capacity(&self) -> (capacity: usize)
        ensures
            capacity == self.spec_capacity(),
    {
        self.data.len()
    }

    /// Whether `value` is present. An index beyond the capacity never is.
    pub fn contains(&self, value: usize) -> (present: bool)
        ensures
            present == self@.contains(value as int),
    {
        value < self.data.len() && self.data[value]
    }

    /// Adds `value`; returns `true` iff it was absent before.
    pub fn insert(&mut self, value: usize) -> (was_absent: bool)
        requires
            value < old(self).spec_capacity(),
        ensures
            was_absent == !old(self)@.contains(value as int),
            final(self)@ == old(self)@.insert(value as int),
            final(self).spec_capacity() == old(self).spec_capacity(),
    {
        let was_present = self.data[value];
        self.data[value] = true;
        assert(self@ =~= old(self)@.insert(value as int));
        !was_present
    }

    /// Takes `value` out; returns `true` iff it was present before. An index
    /// beyond the capacity counts as absent.
    pub fn remove(&mut self, value: usize) -> (was_present: bool)
        ensures
            was_present == old(self)@.contains(value as int),
            final(self)@ == old(self)@.remove(value as int),
            final(self).spec_capacity() == old(self).spec_capacity(),
    {
        if value >= self.data.len() {
            assert(self@ =~= old(self)@.remove(value as int));
            return false;
        }
        let was_present = self.data[value];
        self.data[value] = false;
        assert(self@ =~= old(self)@.remove(value as int));
        was_present
    }

    /// Empties the list and hands out what it held, in rising order.
    pub fn remove_all(&mut self) -> (removed: Vec<usize>)
        ensures
            final(self)@ == Set::<int>::empty(),
            final(self).spec_capacity() == old(self).spec_capacity(),
            forall|k: int| 0 <= k < removed.len() ==> old(self)@.contains(#[trigger] removed[k] as int),
            forall|i: int| old(self)@.contains(i) ==> exists|k: int| 0 <= k < removed.len() && removed[k] == i,
            forall|a: int, b: int| 0 <= a < b < removed.len() ==> removed[a] < removed[b],
            removed.len() == old(self)@.len(),
    {
        let mut removed: Vec<usize> = Vec::new();
        let n = self.data.len();
        let mut i: usize = 0;
        assert(Set::new(|j: int| 0 <= j < 0 && old(self).data[j]) =~= Set::<int>::empty());
        while i < n
            invariant
                i <= n,
                n == self.data.len(),
                n == old(self).data.len(),
                forall|j: int| 0 <= j < i ==> !self.data[j],
                forall|j: int| i <= j < n ==> self.data[j] == old(self).data[j],
                forall|k: int| 0 <= k < removed.len() ==> removed[k] < i && old(self).data[removed[k] as int],
                forall|j: int| 0 <= j < i && old(self).data[j] ==> exists|k: int| 0 <= k < removed.len() && removed[k] == j,
                forall|a: int, b: int| 0 <= a < b < removed.len() ==> removed[a] < removed[b],
                removed.len() == Set::new(|j: int| 0 <= j < i && old(self).data[j]).len(),
                Set::new(|j: int| 0 <= j < i && old(self).data[j]).finite(),
            decreases n - i,
        {
            let ghost before = Set::new(|j: int| 0 <= j < i && old(self).data[j]);
            let ghost after = Set::new(|j: int| 0 <= j < i + 1 && old(self).data[j]);
            if self.data[i] {
                self.data[i] = false;
                let ghost prev = removed@;
                removed.push(i);
                proof {
                    assert(removed@[prev.len() as int] == i);
                    assert forall|j: int| 0 <= j < i + 1 && old(self).data[j] implies exists|k: int|
                        0 <= k < removed.len() && removed[k] == j by {
                        if j < i {
                            let k = choose|k: int| 0 <= k < prev.len() && prev[k] == j;
                            assert(removed@[k] == j);
                        }
                    }
                    assert(after =~= before.insert(i as int));
                }
            } else {
                proof {
                    assert(after =~= before);
                }
            }
            i += 1;
        }
        proof {
            assert(self@ =~= Set::<int>::empty());
            let all = Set::new(|j: int| 0 <= j < n && old(self).data[j]);
            assert(all =~= old(self)@);
        }
        removed
    }
}

} // verus!
