//! Ordered lists of specialization keys.

use crate::plan::demand::Key;
use crate::plan::mode::{
    lemma_pattern_order_total, lemma_pattern_order_transitive, pattern_lt, Pattern,
};
use vstd::prelude::*;

verus! {

/// A derived predicate and a demanded binding pattern.
pub struct SpecKey {
    pub id: usize,
    pub pattern: Pattern,
}

impl View for SpecKey {
    type V = Key;

    open spec fn view(&self) -> Key {
        (self.id as int, self.pattern@)
    }
}

/// Keys are ordered by predicate, then by pattern.
pub open spec fn key_lt(a: Key, b: Key) -> bool {
    a.0 < b.0 || (a.0 == b.0 && pattern_lt(a.1, b.1))
}

pub proof fn lemma_key_order_total(a: Key, b: Key)
    ensures
        a == b || key_lt(a, b) || key_lt(b, a),
        !(key_lt(a, b) && key_lt(b, a)),
        !key_lt(a, a),
{
    lemma_pattern_order_total(a.1, b.1);
    lemma_pattern_order_total(a.1, a.1);
}

pub proof fn lemma_key_order_transitive(a: Key, b: Key, c: Key)
    requires
        key_lt(a, b),
        key_lt(b, c),
    ensures
        key_lt(a, c),
{
    if a.0 == b.0 && b.0 == c.0 {
        lemma_pattern_order_transitive(a.1, b.1, c.1);
    }
}

/// Each key comes before all that follow it.
pub open spec fn keys_ascend(keys: Seq<Key>) -> bool {
    forall|i: int, j: int|
        0 <= i < j < keys.len() ==> key_lt(#[trigger] keys[i], #[trigger] keys[j])
}

/// The keys of a finite set in order.
pub open spec fn keys_in_order(set: Set<Key>) -> Seq<Key> {
    choose|keys: Seq<Key>| #[trigger] keys_ascend(keys) && keys.to_set() == set
}

/// There is only one ascending sequence of the same keys.
pub proof fn lemma_keys_unique(a: Seq<Key>, b: Seq<Key>)
    requires
        keys_ascend(a),
        keys_ascend(b),
        a.to_set() == b.to_set(),
    ensures
        a == b,
    decreases a.len(),
{
    if a.len() == 0 {
        if b.len() > 0 {
            assert(b.to_set().contains(b[0]));
            assert(a.to_set().contains(b[0]));
        }
        assert(a =~= b);
    } else {
        assert(a.to_set().contains(a.last()));
        assert(b.to_set().contains(a.last()));
        let k = choose|k: int| 0 <= k < b.len() && b[k] == a.last();
        assert(b.to_set().contains(b.last()));
        assert(a.to_set().contains(b.last()));
        let l = choose|l: int| 0 <= l < a.len() && a[l] == b.last();
        if l < a.len() - 1 {
            assert(key_lt(a[l], a.last()));
            if k < b.len() - 1 {
                assert(key_lt(b[k], b.last()));
            }
            lemma_key_order_total(a.last(), b.last());
        }
        assert(a.last() == b.last());
        let x = a.drop_last();
        let y = b.drop_last();
        assert forall|key: Key| x.to_set().contains(key) <==> y.to_set().contains(key) by {
            lemma_key_order_total(a.last(), a.last());
            if x.to_set().contains(key) {
                let i = choose|i: int| 0 <= i < x.len() && x[i] == key;
                assert(a[i] == key && key_lt(a[i], a.last()));
                assert(a.to_set().contains(key));
                let j = choose|j: int| 0 <= j < b.len() && b[j] == key;
                assert(y[j] == key);
            }
            if y.to_set().contains(key) {
                let i = choose|i: int| 0 <= i < y.len() && y[i] == key;
                assert(b[i] == key && key_lt(b[i], b.last()));
                assert(b.to_set().contains(key));
                let j = choose|j: int| 0 <= j < a.len() && a[j] == key;
                assert(x[j] == key);
            }
        }
        assert(x.to_set() =~= y.to_set());
        lemma_keys_unique(x, y);
        assert(a =~= x.push(a.last()));
        assert(b =~= y.push(b.last()));
    }
}

/// A key has its place in an ascending sequence that does not hold it.
proof fn lemma_place_exists(keys: Seq<Key>, key: Key) -> (at: int)
    requires
        keys_ascend(keys),
        !keys.contains(key),
    ensures
        0 <= at <= keys.len(),
        keys_ascend(keys.insert(at, key)),
    decreases keys.len(),
{
    if keys.len() == 0 {
        0
    } else {
        let last = keys.last();
        assert(keys.contains(last));
        lemma_key_order_total(last, key);
        if key_lt(last, key) {
            let after = keys.insert(keys.len() as int, key);
            assert forall|i: int, j: int| 0 <= i < j < after.len() implies key_lt(
                #[trigger] after[i],
                #[trigger] after[j],
            ) by {
                if j == keys.len() && i < keys.len() - 1 {
                    assert(key_lt(keys[i], keys[keys.len() - 1]));
                    lemma_key_order_transitive(keys[i], last, key);
                }
            }
            keys.len() as int
        } else {
            let front = keys.drop_last();
            assert forall|k: int| 0 <= k < front.len() implies front[k] != key by {
                assert(keys[k] == front[k]);
            }
            let at = lemma_place_exists(front, key);
            let inner = front.insert(at, key);
            let after = keys.insert(at, key);
            assert(after =~= inner.push(last));
            assert forall|i: int, j: int| 0 <= i < j < after.len() implies key_lt(
                #[trigger] after[i],
                #[trigger] after[j],
            ) by {
                if j < inner.len() {
                    assert(after[i] == inner[i] && after[j] == inner[j]);
                } else if i != at {
                    let i0 = if i < at { i } else { i - 1 };
                    assert(after[i] == keys[i0]);
                    assert(key_lt(keys[i0], keys[keys.len() - 1]));
                }
            }
            at
        }
    }
}

/// Every finite set of keys can be listed in order.
pub proof fn lemma_order_exists(set: Set<Key>)
    requires
        set.finite(),
    ensures
        keys_ascend(keys_in_order(set)),
        keys_in_order(set).to_set() == set,
    decreases set.len(),
{
    if set.len() == 0 {
        let none = Seq::<Key>::empty();
        assert(none.to_set() =~= set);
        assert(keys_ascend(none));
    } else {
        let key = set.choose();
        let rest = set.remove(key);
        lemma_order_exists(rest);
        let keys = keys_in_order(rest);
        assert(!keys.contains(key)) by {
            if keys.contains(key) {
                assert(keys.to_set().contains(key));
            }
        }
        let at = lemma_place_exists(keys, key);
        lemma_insert_to_set(keys, at, key);
        assert(rest.insert(key) =~= set);
        assert(keys_ascend(keys.insert(at, key)) && keys.insert(at, key).to_set() == set);
    }
}

impl SpecKey {
    pub fn copy(&self) -> (r: SpecKey)
        ensures
            r@ == self@,
    {
        SpecKey { id: self.id, pattern: self.pattern.clone() }
    }

    /// Whether this key comes before another.
    pub fn before(&self, other: &SpecKey) -> (r: bool)
        ensures
            r == key_lt(self@, other@),
    {
        self.id < other.id || (self.id == other.id && self.pattern.before(&other.pattern))
    }

    /// Whether the two keys are the same.
    pub fn same(&self, other: &SpecKey) -> (r: bool)
        ensures
            r == (self@ == other@),
    {
        self.id == other.id && self.pattern.same(&other.pattern)
    }
}

/// The views of a sequence of keys.
pub open spec fn key_views(keys: Seq<SpecKey>) -> Seq<Key> {
    keys.map_values(|key: SpecKey| key@)
}

/// Where a key is in an ordered list, or where it belongs.
pub fn locate(keys: &Vec<SpecKey>, key: &SpecKey) -> (r: (usize, bool))
    requires
        keys_ascend(key_views(keys@)),
    ensures
        r.0 <= keys@.len(),
        r.1 == key_views(keys@).contains(key@),
        r.1 ==> r.0 < keys@.len() && keys@[r.0 as int]@ == key@,
        !r.1 ==> keys_ascend(key_views(keys@).insert(r.0 as int, key@)),
{
    let ghost views = key_views(keys@);
    let mut at: usize = keys.len();
    while at > 0 && key.before(&keys[at - 1])
        invariant
            at <= keys@.len(),
            views == key_views(keys@),
            forall|k: int| at <= k < views.len() ==> key_lt(key@, #[trigger] views[k]),
        decreases at,
    {
        assert(views[at - 1] == keys@[at - 1]@);
        at -= 1;
    }
    if at > 0 && keys[at - 1].same(key) {
        assert(views[at - 1] == key@);
        return (at - 1, true);
    }
    proof {
        if at > 0 {
            assert(views[at - 1] == keys@[at - 1]@);
            lemma_key_order_total(views[at - 1], key@);
        }
        assert forall|i: int| 0 <= i < at implies key_lt(#[trigger] views[i], key@) by {
            if i < at - 1 {
                assert(key_lt(views[i], views[at - 1]));
                lemma_key_order_transitive(views[i], views[at - 1], key@);
            }
        }
        lemma_key_order_total(key@, key@);
        assert forall|k: int| 0 <= k < views.len() implies views[k] != key@ by {
            if k < at {
                assert(key_lt(views[k], key@));
            } else {
                assert(key_lt(key@, views[k]));
            }
        }
        let after = views.insert(at as int, key@);
        assert forall|i: int, j: int| 0 <= i < j < after.len() implies key_lt(
            #[trigger] after[i],
            #[trigger] after[j],
        ) by {
            let i0 = if i < at { i } else { i - 1 };
            let j0 = if j < at { j } else { j - 1 };
            if i == at {
                assert(after[j] == views[j0]);
            } else if j == at {
                assert(after[i] == views[i0]);
            } else {
                assert(after[i] == views[i0] && after[j] == views[j0]);
            }
        }
    }
    (at, false)
}

/// A set of keys, held in order.
pub struct KeySet {
    pub keys: Vec<SpecKey>,
}

/// What inserting an item does to the set of items.
pub proof fn lemma_insert_to_set<A>(items: Seq<A>, at: int, item: A)
    requires
        0 <= at <= items.len(),
    ensures
        items.insert(at, item).to_set() == items.to_set().insert(item),
{
    let after = items.insert(at, item);
    assert forall|x: A| after.to_set().contains(x) <==> items.to_set().insert(item).contains(x) by {
        if after.to_set().contains(x) {
            let i = choose|i: int| 0 <= i < after.len() && after[i] == x;
            if i != at {
                let i0 = if i < at { i } else { i - 1 };
                assert(items[i0] == x);
            }
        }
        if items.to_set().contains(x) {
            let i = choose|i: int| 0 <= i < items.len() && items[i] == x;
            let i1 = if i < at { i } else { i + 1 };
            assert(after[i1] == x);
        }
        assert(after[at] == item);
    }
    assert(after.to_set() =~= items.to_set().insert(item));
}

impl KeySet {
    pub open spec fn wf(&self) -> bool {
        keys_ascend(key_views(self.keys@))
    }

    pub open spec fn members(&self) -> Set<Key> {
        key_views(self.keys@).to_set()
    }

    pub fn new() -> (r: KeySet)
        ensures
            r.wf(),
            r.members() == Set::<Key>::empty(),
    {
        let r = KeySet { keys: Vec::new() };
        assert(r.members() =~= Set::<Key>::empty());
        r
    }

    /// Adds a key; whether it is new.
    pub fn insert(&mut self, key: SpecKey) -> (r: bool)
        requires
            old(self).wf(),
        ensures
            final(self).wf(),
            final(self).members() == old(self).members().insert(key@),
            r == !old(self).members().contains(key@),
    {
        let (at, found) = locate(&self.keys, &key);
        if found {
            assert(self.members() =~= self.members().insert(key@));
            return false;
        }
        let ghost before = self.keys@;
        self.keys.insert(at, key);
        proof {
            assert(key_views(self.keys@) =~= key_views(before).insert(at as int, key@));
            lemma_insert_to_set(key_views(before), at as int, key@);
        }
        true
    }
}

} // verus!
