//! Sorting by an order that the items carry.

use vstd::prelude::*;

verus! {

/// Items with an order, in which two items may stand level.
pub trait Ranked: View + Sized {
    /// What one item says stands before what another says.
    spec fn before(a: Self::V, b: Self::V) -> bool;

    /// No item stands before itself, standing before carries over, and what stands
    /// between two items is behind the first or in front of the second.
    proof fn lemma_order(a: Self::V, b: Self::V, c: Self::V)
        ensures
            !Self::before(a, a),
            Self::before(a, b) && Self::before(b, c) ==> Self::before(a, c),
            Self::before(a, b) ==> Self::before(a, c) || Self::before(c, b),
    ;

    /// Whether the item stands before another.
    fn is_before(&self, other: &Self) -> (r: bool)
        ensures
            r == Self::before(self@, other@),
    ;

    /// An item that says the same.
    fn twin(&self) -> (r: Self)
        ensures
            r@ == self@,
    ;
}

/// What items say.
pub open spec fn views<T: View>(items: Seq<T>) -> Seq<T::V> {
    items.map_values(|item: T| item@)
}

/// Sorted items with one more, behind those that are not after it.
pub open spec fn with_ranked<T: Ranked>(items: Seq<T::V>, item: T::V) -> Seq<T::V>
    decreases items.len(),
{
    if items.len() == 0 || !T::before(item, items.last()) {
        items.push(item)
    } else {
        with_ranked::<T>(items.drop_last(), item).push(items.last())
    }
}

/// The first `count` items in order.
pub open spec fn sorted<T: Ranked>(items: Seq<T::V>, count: nat) -> Seq<T::V>
    decreases count,
{
    if count == 0 {
        Seq::empty()
    } else {
        with_ranked::<T>(sorted::<T>(items, (count - 1) as nat), items[count - 1])
    }
}

/// No item stands before one in front of it.
pub open spec fn ordered<T: Ranked>(items: Seq<T::V>) -> bool {
    forall|i: int, j: int|
        #![trigger items[i], items[j]]
        0 <= i < j < items.len() ==> !T::before(items[j], items[i])
}

/// Puts an item in its place among sorted items.
fn insert_ranked<T: Ranked>(items: &mut Vec<T>, item: T)
    ensures
        views(final(items)@) == with_ranked::<T>(views(old(items)@), item@),
{
    let ghost all = views(items@);
    let ghost shown = item@;
    let mut i: usize = items.len();
    assert(all.take(i as int) =~= all);
    assert(with_ranked::<T>(all, shown) =~= with_ranked::<T>(all.take(i as int), shown) + all.skip(
        i as int,
    ));
    while i > 0
        invariant
            all == views(items@),
            items@ == old(items)@,
            shown == item@,
            i <= items@.len(),
            with_ranked::<T>(all, shown) == with_ranked::<T>(all.take(i as int), shown) + all.skip(
                i as int,
            ),
        ensures
            i > 0 ==> !T::before(shown, all.take(i as int).last()),
        decreases i,
    {
        proof {
            assert(all.take(i as int).last() == items@[i - 1]@);
            assert(all.take(i as int).drop_last() =~= all.take(i - 1));
        }
        if !item.is_before(&items[i - 1]) {
            break;
        }
        proof {
            let front = with_ranked::<T>(all.take(i - 1), shown);
            assert(front.push(all[i - 1]) + all.skip(i as int) =~= front + all.skip(i - 1));
        }
        i -= 1;
    }
    proof {
        let front = all.take(i as int);
        assert(with_ranked::<T>(front, shown) =~= front.push(shown));
    }
    items.insert(i, item);
    assert(views(items@) =~= all.take(i as int).push(shown) + all.skip(i as int));
}

/// The items in order; those that stand level keep theirs.
pub fn sort_ranked<T: Ranked>(items: &Vec<T>) -> (r: Vec<T>)
    ensures
        views(r@) == sorted::<T>(views(items@), items@.len()),
        r@.len() == items@.len(),
{
    let mut out: Vec<T> = Vec::new();
    let mut i: usize = 0;
    assert(views(out@) =~= Seq::<T::V>::empty());
    while i < items.len()
        invariant
            i <= items@.len(),
            views(out@) == sorted::<T>(views(items@), i as nat),
        decreases items.len() - i,
    {
        assert(views(items@)[i as int] == items@[i as int]@);
        insert_ranked(&mut out, items[i].twin());
        i += 1;
    }
    proof {
        law_sorting_orders::<T>(views(items@), items@.len());
        views(items@).to_multiset_ensures();
        views(out@).to_multiset_ensures();
        assert(views(items@).take(items@.len() as int) =~= views(items@));
        assert(views(out@).len() == out@.len());
    }
    out
}

/// An item more keeps the items in order and adds the item alone.
proof fn lemma_with_ranked<T: Ranked>(items: Seq<T::V>, item: T::V)
    requires
        ordered::<T>(items),
    ensures
        ordered::<T>(with_ranked::<T>(items, item)),
        with_ranked::<T>(items, item).to_multiset() == items.to_multiset().insert(item),
    decreases items.len(),
{
    let after = with_ranked::<T>(items, item);
    if items.len() == 0 || !T::before(item, items.last()) {
        assert forall|i: int, j: int| 0 <= i < j < after.len() implies !T::before(
            after[j],
            after[i],
        ) by {
            if j == items.len() {
                T::lemma_order(item, items[i], items.last());
            }
        }
        items.to_multiset_ensures();
    } else {
        let rest = items.drop_last();
        let last = items.last();
        lemma_with_ranked::<T>(rest, item);
        let inner = with_ranked::<T>(rest, item);
        inner.to_multiset_ensures();
        rest.to_multiset_ensures();
        assert forall|i: int| 0 <= i < inner.len() implies !T::before(
            last,
            #[trigger] inner[i],
        ) by {
            assert(inner.contains(inner[i]));
            assert(inner.to_multiset().count(inner[i]) > 0);
            if inner[i] != item {
                assert(rest.to_multiset().count(inner[i]) > 0);
                assert(rest.contains(inner[i]));
                let k = choose|k: int| 0 <= k < rest.len() && rest[k] == inner[i];
                assert(items[k] == inner[i]);
                assert(items[items.len() - 1] == last);
            } else {
                T::lemma_order(last, item, last);
            }
        }
        assert forall|i: int, j: int| 0 <= i < j < after.len() implies !T::before(
            after[j],
            after[i],
        ) by {
            if j == inner.len() {
                assert(after[i] == inner[i]);
            }
        }
        assert(items =~= rest.push(last));
        assert(after.to_multiset() =~= items.to_multiset().insert(item));
    }
}

/// Sorting puts items in order and changes none.
pub proof fn law_sorting_orders<T: Ranked>(items: Seq<T::V>, count: nat)
    requires
        count <= items.len(),
    ensures
        ordered::<T>(sorted::<T>(items, count)),
        sorted::<T>(items, count).to_multiset() == items.take(count as int).to_multiset(),
        sorted::<T>(items, count).len() == count,
    decreases count,
{
    if count == 0 {
        assert(items.take(0) =~= Seq::<T::V>::empty());
    } else {
        let before = sorted::<T>(items, (count - 1) as nat);
        law_sorting_orders::<T>(items, (count - 1) as nat);
        lemma_with_ranked::<T>(before, items[count - 1]);
        items.take(count - 1).to_multiset_ensures();
        assert(items.take(count as int) =~= items.take(count - 1).push(items[count - 1]));
        before.to_multiset_ensures();
        sorted::<T>(items, count).to_multiset_ensures();
    }
}

} // verus!
