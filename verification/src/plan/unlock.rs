//! Sets of bindings that would unblock a goal: the minimal ones, the cheapest
//! first.

use crate::plan::error::text_lists;
use crate::plan::mode::CostClass;
use crate::text::{str_eq, texts};
use vstd::prelude::*;

verus! {

/// The bindings that an access path lacks, by the names of the arguments, and the
/// cost of the path.
pub struct Unlock {
    pub names: Vec<String>,
    pub cost: CostClass,
}

/// What an [`Unlock`] says.
pub struct UnlockView {
    pub names: Seq<Seq<char>>,
    pub cost: CostClass,
}

impl View for Unlock {
    type V = UnlockView;

    open spec fn view(&self) -> UnlockView {
        UnlockView { names: texts(self.names@), cost: self.cost }
    }
}

/// What unlocks say.
pub open spec fn unlock_views(items: Seq<Unlock>) -> Seq<UnlockView> {
    items.map_values(|item: Unlock| item@)
}

/// The sets of names of unlocks.
pub open spec fn unlock_names(items: Seq<UnlockView>) -> Seq<Seq<Seq<char>>> {
    items.map_values(|item: UnlockView| item.names)
}

/// Every name of `part` is among `names`.
pub open spec fn is_part(part: Seq<Seq<char>>, names: Seq<Seq<char>>) -> bool {
    forall|i: int| 0 <= i < part.len() ==> names.contains(#[trigger] part[i])
}

/// Some set is within `names`.
pub open spec fn has_part(items: Seq<UnlockView>, names: Seq<Seq<char>>) -> bool {
    exists|k: int| 0 <= k < items.len() && is_part((#[trigger] items[k]).names, names)
}

/// The unlocks whose sets `names` is not within.
pub open spec fn without_wider(items: Seq<UnlockView>, names: Seq<Seq<char>>) -> Seq<UnlockView>
    decreases items.len(),
{
    if items.len() == 0 {
        Seq::empty()
    } else {
        let rest = without_wider(items.drop_last(), names);
        if is_part(names, items.last().names) {
            rest
        } else {
            rest.push(items.last())
        }
    }
}

/// Adds an unlock, where its set is not empty and no set already there is within
/// it; the sets that it is within go.
pub open spec fn with_unlock(items: Seq<UnlockView>, item: UnlockView) -> Seq<UnlockView> {
    if item.names.len() == 0 || has_part(items, item.names) {
        items
    } else {
        without_wider(items, item.names).push(item)
    }
}

/// The unlocks that none in front and no narrower one makes needless.
pub open spec fn minimal(items: Seq<UnlockView>) -> Seq<UnlockView>
    decreases items.len(),
{
    if items.len() == 0 {
        Seq::empty()
    } else {
        with_unlock(minimal(items.drop_last()), items.last())
    }
}

/// The unlocks of one cost.
pub open spec fn of_cost(items: Seq<UnlockView>, cost: CostClass) -> Seq<UnlockView> {
    items.filter(|item: UnlockView| item.cost == cost)
}

/// The unlocks, the cheapest first, those of one cost in their old order.
pub open spec fn cheap_first(items: Seq<UnlockView>) -> Seq<UnlockView> {
    of_cost(items, CostClass::C0) + of_cost(items, CostClass::C1) + of_cost(items, CostClass::C2)
        + of_cost(items, CostClass::C3) + of_cost(items, CostClass::C4)
}

/// One unlock may stand in front of another: it is cheaper, or as cheap and not
/// larger.
pub open spec fn may_precede(a: UnlockView, b: UnlockView) -> bool {
    a.cost.rank() < b.cost.rank() || (a.cost == b.cost && a.names.len() <= b.names.len())
}

/// `items` with `item` behind every one that may stand in front of it.
pub open spec fn placed_by_rank(items: Seq<UnlockView>, item: UnlockView) -> Seq<UnlockView>
    decreases items.len(),
{
    if items.len() == 0 || may_precede(items.last(), item) {
        items.push(item)
    } else {
        placed_by_rank(items.drop_last(), item).push(items.last())
    }
}

/// The unlocks by cost and size, those alike in both in their old order.
pub open spec fn by_rank(items: Seq<UnlockView>) -> Seq<UnlockView>
    decreases items.len(),
{
    if items.len() == 0 {
        Seq::empty()
    } else {
        placed_by_rank(by_rank(items.drop_last()), items.last())
    }
}

/// The minimal unlocks by cost and size. A set that several paths lack has the
/// cost of the cheapest.
pub open spec fn best_unlocks(items: Seq<UnlockView>) -> Seq<UnlockView> {
    by_rank(minimal(cheap_first(items)))
}

/// Whether a name is among others.
fn is_among(name: &String, names: &Vec<String>) -> (r: bool)
    ensures
        r == texts(names@).contains(name@),
{
    let mut i: usize = 0;
    while i < names.len()
        invariant
            i <= names@.len(),
            forall|j: int| 0 <= j < i ==> (#[trigger] names@[j])@ != name@,
        decreases names.len() - i,
    {
        if str_eq(names[i].as_str(), name.as_str()) {
            assert(texts(names@)[i as int] == name@);
            return true;
        }
        i += 1;
    }
    assert forall|j: int| 0 <= j < texts(names@).len() implies texts(names@)[j] != name@ by {
        assert(names@[j]@ != name@);
    }
    false
}

/// Whether every name of `part` is among `names`.
fn part_of(part: &Vec<String>, names: &Vec<String>) -> (r: bool)
    ensures
        r == is_part(texts(part@), texts(names@)),
{
    let mut i: usize = 0;
    while i < part.len()
        invariant
            i <= part@.len(),
            forall|j: int|
                0 <= j < i ==> texts(names@).contains(#[trigger] texts(part@)[j]),
        decreases part.len() - i,
    {
        assert(texts(part@)[i as int] == part@[i as int]@);
        if !is_among(&part[i], names) {
            return false;
        }
        i += 1;
    }
    true
}

/// A copy of a list of names.
fn copy_names(names: &Vec<String>) -> (r: Vec<String>)
    ensures
        texts(r@) == texts(names@),
{
    let mut out: Vec<String> = Vec::new();
    let mut i: usize = 0;
    while i < names.len()
        invariant
            i <= names@.len(),
            out@.len() == i,
            forall|j: int| 0 <= j < i ==> (#[trigger] out@[j])@ == names@[j]@,
        decreases names.len() - i,
    {
        out.push(names[i].clone());
        i += 1;
    }
    assert(texts(out@) =~= texts(names@));
    out
}

impl Unlock {
    fn copy(&self) -> (r: Unlock)
        ensures
            r@ == self@,
    {
        Unlock { names: copy_names(&self.names), cost: self.cost }
    }

    /// Whether this may stand in front of another.
    fn precedes(&self, other: &Unlock) -> (r: bool)
        ensures
            r == may_precede(self@, other@),
    {
        self.cost.less_than(other.cost) || (self.cost == other.cost && self.names.len()
            <= other.names.len())
    }
}

/// Removes the unlocks whose sets `names` is within.
fn drop_wider(items: &mut Vec<Unlock>, names: &Vec<String>)
    ensures
        unlock_views(final(items)@) == without_wider(unlock_views(old(items)@), texts(names@)),
{
    let ghost start = unlock_views(items@);
    let ghost mut seen: int = 0;
    let mut k: usize = 0;
    assert(start.take(0) =~= Seq::empty());
    assert(start.skip(0) =~= start);
    assert(without_wider(start.take(0), texts(names@)) + start.skip(0) =~= start);
    while k < items.len()
        invariant
            start == unlock_views(old(items)@),
            0 <= seen <= start.len(),
            k == without_wider(start.take(seen), texts(names@)).len(),
            unlock_views(items@) == without_wider(start.take(seen), texts(names@)) + start.skip(
                seen,
            ),
        decreases start.len() - seen,
    {
        let ghost before = unlock_views(items@);
        assert(before.len() == items@.len());
        assert(seen < start.len());
        assert(before[k as int] == items@[k as int]@);
        assert(before[k as int] == start[seen]);
        assert(start.take(seen + 1).drop_last() =~= start.take(seen));
        assert(start.take(seen + 1).last() == start[seen]);
        if part_of(names, &items[k].names) {
            let _ = items.remove(k);
            assert(unlock_views(items@) =~= before.remove(k as int));
            assert(before.remove(k as int) =~= without_wider(start.take(seen + 1), texts(names@))
                + start.skip(seen + 1));
        } else {
            k += 1;
            assert(before =~= without_wider(start.take(seen + 1), texts(names@)) + start.skip(
                seen + 1,
            ));
        }
        proof {
            seen = seen + 1;
        }
    }
    assert(unlock_views(items@).len() == items@.len());
    assert(seen == start.len());
    assert(start.take(seen) =~= start);
    assert(unlock_views(items@) =~= without_wider(start, texts(names@)));
}

/// Adds an unlock, where its set is not empty and no set already there is within
/// it; the sets that it is within go.
fn push_unlock(items: &mut Vec<Unlock>, item: Unlock)
    ensures
        unlock_views(final(items)@) == with_unlock(unlock_views(old(items)@), item@),
{
    if item.names.len() == 0 {
        return;
    }
    let mut k: usize = 0;
    while k < items.len()
        invariant
            k <= items@.len(),
            items@ == old(items)@,
            item.names@.len() > 0,
            forall|j: int|
                0 <= j < k ==> !is_part((#[trigger] unlock_views(items@)[j]).names, item@.names),
        decreases items.len() - k,
    {
        assert(unlock_views(items@)[k as int] == items@[k as int]@);
        if part_of(&items[k].names, &item.names) {
            assert(has_part(unlock_views(items@), item@.names));
            return;
        }
        k += 1;
    }
    drop_wider(items, &item.names);
    let ghost narrow = unlock_views(items@);
    items.push(item);
    assert(unlock_views(items@) =~= narrow.push(item@));
}

/// Adds the unlocks of one cost.
fn add_of_cost(kept: &mut Vec<Unlock>, items: &Vec<Unlock>, cost: CostClass, Ghost(seen): Ghost<
    Seq<UnlockView>,
>)
    requires
        unlock_views(old(kept)@) == minimal(seen),
    ensures
        unlock_views(final(kept)@) == minimal(seen + of_cost(unlock_views(items@), cost)),
{
    let ghost all = unlock_views(items@);
    let ghost wanted = |item: UnlockView| item.cost == cost;
    let mut i: usize = 0;
    proof {
        reveal(Seq::filter);
        assert(all.take(0).filter(wanted) =~= Seq::<UnlockView>::empty());
        assert(seen + all.take(0).filter(wanted) =~= seen);
    }
    while i < items.len()
        invariant
            all == unlock_views(items@),
            wanted == (|item: UnlockView| item.cost == cost),
            i <= items@.len(),
            unlock_views(kept@) == minimal(seen + all.take(i as int).filter(wanted)),
        decreases items.len() - i,
    {
        proof {
            reveal(Seq::filter);
            assert(all[i as int] == items@[i as int]@);
            assert(all.take(i + 1).drop_last() =~= all.take(i as int));
            assert(all.take(i + 1).last() == all[i as int]);
        }
        let ghost before = seen + all.take(i as int).filter(wanted);
        if items[i].cost == cost {
            push_unlock(kept, items[i].copy());
            proof {
                let after = seen + all.take(i + 1).filter(wanted);
                assert(after =~= before.push(all[i as int]));
                assert(after.drop_last() =~= before);
            }
        }
        i += 1;
    }
    assert(all.take(i as int) =~= all);
}

/// Inserts an unlock behind every one that may stand in front of it.
fn insert_by_rank(items: &mut Vec<Unlock>, item: Unlock)
    ensures
        unlock_views(final(items)@) == placed_by_rank(unlock_views(old(items)@), item@),
{
    let ghost views = unlock_views(items@);
    let mut at: usize = items.len();
    assert(views.take(at as int) =~= views);
    assert(placed_by_rank(views, item@) =~= placed_by_rank(views.take(at as int), item@)
        + views.skip(at as int));
    while at > 0 && !items[at - 1].precedes(&item)
        invariant
            at <= items@.len(),
            items@ == old(items)@,
            views == unlock_views(items@),
            placed_by_rank(views, item@) == placed_by_rank(views.take(at as int), item@)
                + views.skip(at as int),
        decreases at,
    {
        proof {
            let front = views.take(at as int);
            assert(front.drop_last() =~= views.take(at - 1));
            assert(front.last() == items@[at - 1]@);
            assert(placed_by_rank(front, item@) + views.skip(at as int) =~= placed_by_rank(
                front.drop_last(),
                item@,
            ) + views.skip(at - 1));
        }
        at -= 1;
    }
    proof {
        let front = views.take(at as int);
        if at > 0 {
            assert(front.last() == items@[at - 1]@);
        }
        assert(placed_by_rank(front, item@) =~= front.push(item@));
    }
    items.insert(at, item);
    assert(unlock_views(items@) =~= views.take(at as int).push(item@) + views.skip(at as int));
}

/// The minimal unlocks by cost and size.
pub fn pick_best(items: &Vec<Unlock>) -> (r: Vec<Unlock>)
    ensures
        unlock_views(r@) == best_unlocks(unlock_views(items@)),
{
    let ghost all = unlock_views(items@);
    let mut kept: Vec<Unlock> = Vec::new();
    assert(unlock_views(kept@) =~= minimal(Seq::empty()));
    add_of_cost(&mut kept, items, CostClass::C0, Ghost(Seq::empty()));
    let ghost s0 = Seq::empty() + of_cost(all, CostClass::C0);
    add_of_cost(&mut kept, items, CostClass::C1, Ghost(s0));
    let ghost s1 = s0 + of_cost(all, CostClass::C1);
    add_of_cost(&mut kept, items, CostClass::C2, Ghost(s1));
    let ghost s2 = s1 + of_cost(all, CostClass::C2);
    add_of_cost(&mut kept, items, CostClass::C3, Ghost(s2));
    let ghost s3 = s2 + of_cost(all, CostClass::C3);
    add_of_cost(&mut kept, items, CostClass::C4, Ghost(s3));
    assert(s3 + of_cost(all, CostClass::C4) =~= cheap_first(all));
    let ghost narrow = unlock_views(kept@);
    let mut out: Vec<Unlock> = Vec::new();
    let mut i: usize = 0;
    assert(unlock_views(out@) =~= by_rank(narrow.take(0)));
    while i < kept.len()
        invariant
            i <= kept@.len(),
            narrow == unlock_views(kept@),
            unlock_views(out@) == by_rank(narrow.take(i as int)),
        decreases kept.len() - i,
    {
        proof {
            assert(narrow.take(i + 1).drop_last() =~= narrow.take(i as int));
            assert(narrow.take(i + 1).last() == kept@[i as int]@);
        }
        insert_by_rank(&mut out, kept[i].copy());
        i += 1;
    }
    assert(narrow.take(i as int) =~= narrow);
    out
}

/// The sets of names of unlocks.
pub fn name_sets(items: &Vec<Unlock>) -> (r: Vec<Vec<String>>)
    ensures
        text_lists(r@) == unlock_names(unlock_views(items@)),
{
    let mut out: Vec<Vec<String>> = Vec::new();
    let mut i: usize = 0;
    while i < items.len()
        invariant
            i <= items@.len(),
            out@.len() == i,
            forall|k: int| 0 <= k < i ==> texts((#[trigger] out@[k])@) == items@[k]@.names,
        decreases items.len() - i,
    {
        out.push(copy_names(&items[i].names));
        i += 1;
    }
    assert(text_lists(out@) =~= unlock_names(unlock_views(items@)));
    out
}

} // verus!
