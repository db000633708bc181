//! Ordered maps keyed by raw ids, and relations of distinct rows.

use vstd::prelude::*;

verus! {

/// Each number of `keys` is smaller than the ones after it.
pub open spec fn ascending(keys: Seq<u64>) -> bool {
    forall|i: int, j: int| 0 <= i < j < keys.len() ==> keys[i] < keys[j]
}

/// Values by raw id, walked in the order of the ids.
#[verifier::reject_recursive_types(V)]
pub struct IdMap<V: View> {
    entries: Vec<(u64, V)>,
}

impl<V: View> View for IdMap<V> {
    type V = Map<u64, V::V>;

    closed spec fn view(&self) -> Map<u64, V::V> {
        Map::new(
            |key: u64| exists|i: int| #[trigger] self.holds_at(key, i),
            |key: u64| self.entries@[choose|i: int| #[trigger] self.holds_at(key, i)].1@,
        )
    }
}

impl<V: View> IdMap<V> {
    /// Entry `i` is for the key.
    spec fn holds_at(&self, key: u64, i: int) -> bool {
        0 <= i < self.entries@.len() && self.entries@[i].0 == key
    }

    /// The ids, in ascending order.
    pub closed spec fn keys(&self) -> Seq<u64> {
        Seq::new(self.entries@.len(), |i: int| self.entries@[i].0)
    }

    /// The entries stand in the order of their ids.
    pub closed spec fn wf(&self) -> bool {
        ascending(self.keys())
    }

    /// What the order of the ids means: ascending, and each id of the map once.
    pub proof fn lemma_keys(&self)
        requires
            self.wf(),
        ensures
            ascending(self.keys()),
            forall|i: int| 0 <= i < self.keys().len() ==> self@.contains_key(#[trigger] self.keys()[i]),
            forall|k: u64| #[trigger] self@.contains_key(k) ==> self.keys().contains(k),
    {
        assert forall|i: int| 0 <= i < self.keys().len() implies self@.contains_key(
            #[trigger] self.keys()[i],
        ) by {
            assert(self.holds_at(self.keys()[i], i));
        }
        assert forall|k: u64| #[trigger] self@.contains_key(k) implies self.keys().contains(k) by {
            let i = choose|i: int| #[trigger] self.holds_at(k, i);
            assert(self.keys()[i] == k);
        }
    }

    proof fn lemma_entry(&self, i: int)
        requires
            self.wf(),
            0 <= i < self.entries@.len(),
        ensures
            self@.contains_key(self.entries@[i].0),
            self@[self.entries@[i].0] == self.entries@[i].1@,
    {
        let key = self.entries@[i].0;
        assert(self.holds_at(key, i));
        let j = choose|j: int| #[trigger] self.holds_at(key, j);
        assert(self.keys()[i] == self.keys()[j]);
    }

    pub fn new() -> (r: IdMap<V>)
        ensures
            r.wf(),
            r@ == Map::<u64, V::V>::empty(),
    {
        let r = IdMap { entries: Vec::new() };
        assert(r@ =~= Map::<u64, V::V>::empty());
        r
    }

    pub fn len(&self) -> (r: usize)
        ensures
            r == self.keys().len(),
    {
        self.entries.len()
    }

    /// The id at a place of the walk.
    pub fn key_at(&self, i: usize) -> (r: u64)
        requires
            self.wf(),
            i < self.keys().len(),
        ensures
            r == self.keys()[i as int],
            self@.contains_key(r),
    {
        proof {
            self.lemma_entry(i as int);
        }
        self.entries[i].0
    }

    /// The value at a place of the walk.
    pub fn value_at(&self, i: usize) -> (r: &V)
        requires
            self.wf(),
            i < self.keys().len(),
        ensures
            self@.contains_key(self.keys()[i as int]),
            r@ == self@[self.keys()[i as int]],
    {
        proof {
            self.lemma_entry(i as int);
        }
        &self.entries[i].1
    }

    /// The first place whose id is not below the key.
    fn place(&self, key: u64) -> (r: usize)
        requires
            self.wf(),
        ensures
            r <= self.entries@.len(),
            forall|i: int| 0 <= i < r ==> (#[trigger] self.entries@[i]).0 < key,
            forall|i: int| r <= i < self.entries@.len() ==> (#[trigger] self.entries@[i]).0 >= key,
    {
        let mut low: usize = 0;
        let mut high: usize = self.entries.len();
        while low < high
            invariant
                low <= high <= self.entries@.len(),
                self.wf(),
                forall|i: int| 0 <= i < low ==> (#[trigger] self.entries@[i]).0 < key,
                forall|i: int|
                    high <= i < self.entries@.len() ==> (#[trigger] self.entries@[i]).0 >= key,
            decreases high - low,
        {
            let middle: usize = low + (high - low) / 2;
            let here: u64 = self.entries[middle].0;
            proof {
                assert(self.keys()[middle as int] == here);
                assert forall|i: int| 0 <= i < self.entries@.len() implies (i < middle
                    ==> (#[trigger] self.entries@[i]).0 < here) && (i > middle
                    ==> self.entries@[i].0 > here) by {
                    assert(self.keys()[i] == self.entries@[i].0);
                }
            }
            if here < key {
                low = middle + 1;
            } else {
                high = middle;
            }
        }
        low
    }

    proof fn lemma_absent(&self, key: u64, at: int)
        requires
            self.wf(),
            0 <= at <= self.entries@.len(),
            forall|i: int| 0 <= i < at ==> (#[trigger] self.entries@[i]).0 < key,
            forall|i: int| at <= i < self.entries@.len() ==> (#[trigger] self.entries@[i]).0 > key,
        ensures
            !self@.contains_key(key),
    {
        if self@.contains_key(key) {
            let i = choose|i: int| #[trigger] self.holds_at(key, i);
            assert(self.entries@[i].0 == key);
        }
    }

    proof fn lemma_above(&self, at: int)
        requires
            self.wf(),
            0 <= at < self.entries@.len(),
        ensures
            forall|i: int|
                at < i < self.entries@.len() ==> (#[trigger] self.entries@[i]).0
                    > self.entries@[at].0,
            forall|i: int|
                0 <= i < at ==> (#[trigger] self.entries@[i]).0 < self.entries@[at].0,
    {
        assert(self.keys()[at] == self.entries@[at].0);
        assert forall|i: int| 0 <= i < self.entries@.len() implies (i < at ==> (
        #[trigger] self.entries@[i]).0 < self.entries@[at].0) && (i > at ==> self.entries@[i].0
            > self.entries@[at].0) by {
            assert(self.keys()[i] == self.entries@[i].0);
        }
    }

    /// The value of an id.
    pub fn get(&self, key: u64) -> (r: Option<&V>)
        requires
            self.wf(),
        ensures
            match r {
                Some(value) => self@.contains_key(key) && value@ == self@[key],
                None => !self@.contains_key(key),
            },
    {
        let at = self.place(key);
        if at < self.entries.len() && self.entries[at].0 == key {
            proof {
                self.lemma_entry(at as int);
            }
            Some(&self.entries[at].1)
        } else {
            proof {
                if at < self.entries@.len() {
                    self.lemma_above(at as int);
                }
                self.lemma_absent(key, at as int);
            }
            None
        }
    }

    pub fn contains(&self, key: u64) -> (r: bool)
        requires
            self.wf(),
        ensures
            r == self@.contains_key(key),
    {
        self.get(key).is_some()
    }

    /// The map has the entries of `other`, but for the one of `key`.
    proof fn lemma_same(&self, before: &IdMap<V>, key: u64, value: V::V, at: int, fresh: bool)
        requires
            self.wf(),
            before.wf(),
            0 <= at < self.entries@.len(),
            self.entries@[at].0 == key,
            self.entries@[at].1@ == value,
            fresh ==> self.entries@.len() == before.entries@.len() + 1,
            fresh ==> forall|i: int|
                0 <= i < before.entries@.len() ==> #[trigger] before.entries@[i]
                    == self.entries@[if i < at { i } else { i + 1 }],
            !fresh ==> self.entries@.len() == before.entries@.len() && before.entries@[at].0 == key,
            !fresh ==> forall|i: int|
                0 <= i < before.entries@.len() && i != at ==> #[trigger] before.entries@[i]
                    == self.entries@[i],
        ensures
            self@ == before@.insert(key, value),
    {
        let want = before@.insert(key, value);
        assert forall|k: u64| self@.contains_key(k) <==> want.contains_key(k) by {
            if self@.contains_key(k) {
                let i = choose|i: int| #[trigger] self.holds_at(k, i);
                if i != at {
                    let j = if fresh && i > at { i - 1 } else { i };
                    assert(before.entries@[j] == self.entries@[i]);
                    assert(before.holds_at(k, j));
                }
            }
            if before@.contains_key(k) {
                let j = choose|j: int| #[trigger] before.holds_at(k, j);
                let i = if fresh && j >= at { j + 1 } else { j };
                if j == at && !fresh {
                    assert(self.holds_at(k, at));
                } else {
                    assert(before.entries@[j] == self.entries@[i]);
                    assert(self.holds_at(k, i));
                }
            }
            assert(self.holds_at(key, at));
        }
        assert forall|k: u64| self@.contains_key(k) implies self@[k] == want[k] by {
            let i = choose|i: int| #[trigger] self.holds_at(k, i);
            self.lemma_entry(i);
            self.lemma_entry(at);
            if i != at {
                let j = if fresh && i > at { i - 1 } else { i };
                assert(before.entries@[j] == self.entries@[i]);
                before.lemma_entry(j);
                self.lemma_above(at);
                assert(k != key);
            }
        }
        assert(self@ =~= want);
    }

    /// Gives an id a value, in place of the one it has.
    pub fn insert(&mut self, key: u64, value: V)
        requires
            old(self).wf(),
        ensures
            final(self).wf(),
            final(self)@ == old(self)@.insert(key, value@),
    {
        let ghost before = *self;
        let ghost shown = value@;
        let at = self.place(key);
        if at < self.entries.len() && self.entries[at].0 == key {
            self.entries.set(at, (key, value));
            proof {
                assert(self.keys() =~= before.keys());
                self.lemma_same(&before, key, shown, at as int, false);
            }
        } else {
            proof {
                if at < self.entries@.len() {
                    self.lemma_above(at as int);
                }
            }
            self.entries.insert(at, (key, value));
            proof {
                assert forall|i: int, j: int| 0 <= i < j < self.keys().len() implies self.keys()[i]
                    < self.keys()[j] by {
                    let i0 = if i > at { i - 1 } else { i };
                    let j0 = if j > at { j - 1 } else { j };
                    if i != at {
                        assert(self.entries@[i] == before.entries@[i0]);
                        assert(before.keys()[i0] == before.entries@[i0].0);
                    }
                    if j != at {
                        assert(self.entries@[j] == before.entries@[j0]);
                        assert(before.keys()[j0] == before.entries@[j0].0);
                    }
                }
                self.lemma_same(&before, key, shown, at as int, true);
            }
        }
    }

    /// Takes an id out.
    pub fn remove(&mut self, key: u64)
        requires
            old(self).wf(),
        ensures
            final(self).wf(),
            final(self)@ == old(self)@.remove(key),
    {
        let ghost before = *self;
        let at = self.place(key);
        if at < self.entries.len() && self.entries[at].0 == key {
            let _ = self.entries.remove(at);
            proof {
                assert forall|i: int, j: int| 0 <= i < j < self.keys().len() implies self.keys()[i]
                    < self.keys()[j] by {
                    let i0 = if i >= at { i + 1 } else { i };
                    let j0 = if j >= at { j + 1 } else { j };
                    assert(self.entries@[i] == before.entries@[i0]);
                    assert(before.keys()[i0] == before.entries@[i0].0);
                    assert(self.entries@[j] == before.entries@[j0]);
                    assert(before.keys()[j0] == before.entries@[j0].0);
                }
                before.lemma_above(at as int);
                let want = before@.remove(key);
                assert forall|k: u64| self@.contains_key(k) <==> want.contains_key(k) by {
                    if self@.contains_key(k) {
                        let i = choose|i: int| #[trigger] self.holds_at(k, i);
                        let j = if i >= at { i + 1 } else { i };
                        assert(self.entries@[i] == before.entries@[j]);
                        assert(before.holds_at(k, j));
                    }
                    if want.contains_key(k) {
                        let j = choose|j: int| #[trigger] before.holds_at(k, j);
                        let i = if j > at { j - 1 } else { j };
                        assert(self.entries@[i] == before.entries@[j]);
                        assert(self.holds_at(k, i));
                    }
                }
                assert forall|k: u64| self@.contains_key(k) implies self@[k] == want[k] by {
                    let i = choose|i: int| #[trigger] self.holds_at(k, i);
                    let j = if i >= at { i + 1 } else { i };
                    assert(self.entries@[i] == before.entries@[j]);
                    self.lemma_entry(i);
                    before.lemma_entry(j);
                }
                assert(self@ =~= want);
            }
        } else {
            proof {
                if at < self.entries@.len() {
                    self.lemma_above(at as int);
                }
                self.lemma_absent(key, at as int);
                assert(self@ =~= before@.remove(key));
            }
        }
    }
}

/// A row of a relation: what it says, and a test for saying the same.
pub trait Row: View + Sized {
    fn same(&self, other: &Self) -> (r: bool)
        ensures
            r == (self@ == other@),
    ;
}

/// A relation's rows with one more, unless the relation has it.
pub open spec fn with_row<R>(rows: Seq<R>, row: R) -> Seq<R> {
    if rows.contains(row) {
        rows
    } else {
        rows.push(row)
    }
}

/// Distinct rows, in the order in which they were first told.
#[verifier::reject_recursive_types(T)]
pub struct Relation<T: Row> {
    rows: Vec<T>,
}

impl<T: Row> View for Relation<T> {
    type V = Seq<T::V>;

    closed spec fn view(&self) -> Seq<T::V> {
        Seq::new(self.rows@.len(), |i: int| self.rows@[i]@)
    }
}

impl<T: Row> Relation<T> {
    pub fn new() -> (r: Relation<T>)
        ensures
            r@ == Seq::<T::V>::empty(),
    {
        let r = Relation { rows: Vec::new() };
        assert(r@ =~= Seq::<T::V>::empty());
        r
    }

    pub fn len(&self) -> (r: usize)
        ensures
            r == self@.len(),
    {
        self.rows.len()
    }

    pub fn row(&self, i: usize) -> (r: &T)
        requires
            i < self@.len(),
        ensures
            r@ == self@[i as int],
    {
        &self.rows[i]
    }

    pub fn contains(&self, row: &T) -> (r: bool)
        ensures
            r == self@.contains(row@),
    {
        let mut i: usize = 0;
        while i < self.rows.len()
            invariant
                i <= self.rows@.len(),
                forall|k: int| 0 <= k < i ==> #[trigger] self@[k] != row@,
            decreases self.rows.len() - i,
        {
            if self.rows[i].same(row) {
                assert(self@[i as int] == row@);
                return true;
            }
            i += 1;
        }
        false
    }

    /// Tells a row.
    pub fn insert(&mut self, row: T)
        ensures
            final(self)@ == with_row(old(self)@, row@),
    {
        if !self.contains(&row) {
            let ghost before = self@;
            let ghost shown = row@;
            self.rows.push(row);
            assert(self@ =~= before.push(shown));
        }
    }
}

} // verus!
