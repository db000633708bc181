//! A small table from keys to values.

use vstd::prelude::*;

verus! {

/// A key of a [`Table`]: what it stands for, and a test for standing for the
/// same.
pub trait TableKey: Sized {
    type K;

    spec fn key(&self) -> Self::K;

    fn same_key(&self, other: &Self) -> (r: bool)
        ensures
            r == (self.key() == other.key()),
    ;
}

/// Values by key, each key once.
#[verifier::reject_recursive_types(Q)]
#[verifier::reject_recursive_types(V)]
pub struct Table<Q: TableKey, V> {
    entries: Vec<(Q, V)>,
}

impl<Q: TableKey, V> Table<Q, V> {
    /// Entry `i` is for the key.
    spec fn holds_at(&self, key: Q::K, i: int) -> bool {
        0 <= i < self.entries@.len() && self.entries@[i].0.key() == key
    }

    /// No key has two entries.
    pub closed spec fn wf(&self) -> bool {
        forall|i: int, j: int|
            0 <= i < j < self.entries@.len() ==> (#[trigger] self.entries@[i]).0.key() != (
            #[trigger] self.entries@[j]).0.key()
    }

    /// The values by what their keys stand for.
    pub closed spec fn map(&self) -> Map<Q::K, V> {
        Map::new(
            |key: Q::K| exists|i: int| #[trigger] self.holds_at(key, i),
            |key: Q::K| self.entries@[choose|i: int| #[trigger] self.holds_at(key, i)].1,
        )
    }

    proof fn lemma_entry(&self, i: int)
        requires
            self.wf(),
            0 <= i < self.entries@.len(),
        ensures
            self.map().contains_key(self.entries@[i].0.key()),
            self.map()[self.entries@[i].0.key()] == self.entries@[i].1,
    {
        let key = self.entries@[i].0.key();
        assert(self.holds_at(key, i));
        let j = choose|j: int| #[trigger] self.holds_at(key, j);
        if i < j {
            assert(self.entries@[i].0.key() != self.entries@[j].0.key());
        } else if j < i {
            assert(self.entries@[j].0.key() != self.entries@[i].0.key());
        }
    }

    pub fn new() -> (r: Table<Q, V>)
        ensures
            r.wf(),
            r.map() == Map::<Q::K, V>::empty(),
    {
        let r = Table { entries: Vec::new() };
        assert(r.map() =~= Map::<Q::K, V>::empty());
        r
    }

    /// Where the key is, if it is.
    fn position(&self, key: &Q) -> (r: Option<usize>)
        requires
            self.wf(),
        ensures
            match r {
                Some(i) => i < self.entries@.len() && self.entries@[i as int].0.key() == key.key()
                    && self.map().contains_key(key.key()) && self.map()[key.key()]
                    == self.entries@[i as int].1,
                None => !self.map().contains_key(key.key()) && forall|k: int|
                    0 <= k < self.entries@.len() ==> (#[trigger] self.entries@[k]).0.key()
                        != key.key(),
            },
    {
        let mut i: usize = 0;
        while i < self.entries.len()
            invariant
                i <= self.entries@.len(),
                self.wf(),
                forall|k: int|
                    0 <= k < i ==> (#[trigger] self.entries@[k]).0.key() != key.key(),
            decreases self.entries.len() - i,
        {
            if self.entries[i].0.same_key(key) {
                proof {
                    self.lemma_entry(i as int);
                }
                return Some(i);
            }
            i += 1;
        }
        None
    }

    /// The value of a key.
    pub fn get(&self, key: &Q) -> (r: Option<&V>)
        requires
            self.wf(),
        ensures
            match r {
                Some(value) => self.map().contains_key(key.key()) && *value
                    == self.map()[key.key()],
                None => !self.map().contains_key(key.key()),
            },
    {
        match self.position(key) {
            Some(i) => Some(&self.entries[i].1),
            None => None,
        }
    }

    /// Gives a key a value, in place of the one it has.
    pub fn insert(&mut self, key: Q, value: V)
        requires
            old(self).wf(),
        ensures
            final(self).wf(),
            final(self).map() == old(self).map().insert(key.key(), value),
    {
        let ghost before = *self;
        let name = Ghost(key.key());
        match self.position(&key) {
            Some(i) => {
                self.entries.set(i, (key, value));
                proof {
                    assert forall|k: Q::K|
                        self.map().contains_key(k) <==> before.map().insert(
                            name@,
                            value,
                        ).contains_key(k) by {
                        if self.map().contains_key(k) {
                            let j = choose|j: int| #[trigger] self.holds_at(k, j);
                            assert(before.holds_at(k, j));
                        }
                        if before.map().contains_key(k) {
                            let j = choose|j: int| #[trigger] before.holds_at(k, j);
                            assert(self.holds_at(k, j));
                        }
                    }
                    assert forall|k: Q::K| self.map().contains_key(k) implies self.map()[k]
                        == before.map().insert(name@, value)[k] by {
                        let j = choose|j: int| #[trigger] self.holds_at(k, j);
                        self.lemma_entry(j);
                        before.lemma_entry(j);
                        self.lemma_entry(i as int);
                    }
                    assert(self.map() =~= before.map().insert(name@, value));
                }
            },
            None => {
                self.entries.push((key, value));
                proof {
                    let last = before.entries@.len() as int;
                    assert forall|k: Q::K|
                        self.map().contains_key(k) <==> before.map().insert(
                            name@,
                            value,
                        ).contains_key(k) by {
                        if self.map().contains_key(k) {
                            let j = choose|j: int| #[trigger] self.holds_at(k, j);
                            if j < last {
                                assert(before.holds_at(k, j));
                            }
                        }
                        if before.map().contains_key(k) {
                            let j = choose|j: int| #[trigger] before.holds_at(k, j);
                            assert(self.holds_at(k, j));
                        }
                        assert(self.holds_at(name@, last));
                    }
                    assert forall|k: Q::K| self.map().contains_key(k) implies self.map()[k]
                        == before.map().insert(name@, value)[k] by {
                        let j = choose|j: int| #[trigger] self.holds_at(k, j);
                        self.lemma_entry(j);
                        if j < last {
                            before.lemma_entry(j);
                        }
                    }
                    assert(self.map() =~= before.map().insert(name@, value));
                }
            },
        }
    }
}

impl TableKey for u64 {
    type K = u64;

    open spec fn key(&self) -> u64 {
        *self
    }

    fn same_key(&self, other: &u64) -> (r: bool) {
        *self == *other
    }
}

impl TableKey for String {
    type K = Seq<char>;

    open spec fn key(&self) -> Seq<char> {
        self@
    }

    fn same_key(&self, other: &String) -> (r: bool) {
        crate::text::str_eq(self.as_str(), other.as_str())
    }
}

} // verus!
