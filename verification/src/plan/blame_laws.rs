//! What holds of the bindings that an unplannable goal is told to lack.

use crate::plan::blame::BlameCase;
use crate::plan::logic::{GoalRef, Term};
use crate::plan::mode::{covered, required, unseeded, CostClass, ModeDef};
use crate::plan::order::{
    flags_of, free_count, is_best_mode, lemma_best_mode_exists, occurs_elsewhere,
    shared_unbound_vars, usable_mode, waiting_on, OrderProblem,
};
use crate::plan::patterns::{in_order, lemma_in_order, supported};
use crate::plan::search::goal_wf;
use crate::plan::unlock::{
    best_unlocks, by_rank, cheap_first, has_part, is_part, may_precede, minimal, of_cost,
    placed_by_rank, unlock_names, with_unlock, without_wider, UnlockView,
};
use vstd::prelude::*;

verus! {

/// No set is empty, and none is within another.
pub open spec fn is_minimal(items: Seq<UnlockView>) -> bool {
    (forall|i: int| 0 <= i < items.len() ==> (#[trigger] items[i]).names.len() > 0) && forall|
        i: int,
        j: int,
    |
        0 <= i < items.len() && 0 <= j < items.len() && i != j ==> !is_part(
            (#[trigger] items[i]).names,
            (#[trigger] items[j]).names,
        )
}

/// Each unlock may stand in front of those behind it.
pub open spec fn is_ranked(items: Seq<UnlockView>) -> bool {
    forall|i: int, j: int|
        0 <= i < j < items.len() ==> may_precede(#[trigger] items[i], #[trigger] items[j])
}

/// No unlock is dearer than one behind it.
spec fn costs_ascend(items: Seq<UnlockView>) -> bool {
    forall|i: int, j: int|
        0 <= i < j < items.len() ==> (#[trigger] items[i]).cost.rank() <= (
        #[trigger] items[j]).cost.rank()
}

/// What is within a set that is within another is within that other.
proof fn lemma_part_of_part(a: Seq<Seq<char>>, b: Seq<Seq<char>>, c: Seq<Seq<char>>)
    requires
        is_part(a, b),
        is_part(b, c),
    ensures
        is_part(a, c),
{
    assert forall|i: int| 0 <= i < a.len() implies c.contains(#[trigger] a[i]) by {
        let k = choose|k: int| 0 <= k < b.len() && b[k] == a[i];
        assert(c.contains(b[k]));
    }
}

/// What a pushed sequence contains.
proof fn lemma_push_contains(items: Seq<UnlockView>, item: UnlockView)
    ensures
        forall|x: UnlockView| #[trigger]
            items.push(item).contains(x) <==> items.contains(x) || x == item,
{
    let all = items.push(item);
    assert forall|x: UnlockView| #[trigger] all.contains(x) <==> items.contains(x) || x
        == item by {
        if all.contains(x) && x != item {
            let k = choose|k: int| 0 <= k < all.len() && all[k] == x;
            assert(items[k] == x);
        }
        if items.contains(x) {
            let k = choose|k: int| 0 <= k < items.len() && items[k] == x;
            assert(all[k] == x);
        }
        assert(all[items.len() as int] == item);
    }
}

/// What is left comes from the unlocks, and what went was wider.
proof fn lemma_without_wider(items: Seq<UnlockView>, names: Seq<Seq<char>>)
    ensures
        forall|x: UnlockView| #[trigger]
            without_wider(items, names).contains(x) <==> items.contains(x) && !is_part(
                names,
                x.names,
            ),
        is_minimal(items) ==> is_minimal(without_wider(items, names)),
    decreases items.len(),
{
    let kept = without_wider(items, names);
    if items.len() > 0 {
        let rest = items.drop_last();
        let last = items.last();
        lemma_without_wider(rest, names);
        let shorter = without_wider(rest, names);
        assert(items =~= rest.push(last));
        lemma_push_contains(rest, last);
        lemma_push_contains(shorter, last);
        if is_minimal(items) {
            assert(is_minimal(rest)) by {
                assert forall|i: int, j: int|
                    0 <= i < rest.len() && 0 <= j < rest.len() && i != j implies !is_part(
                    (#[trigger] rest[i]).names,
                    (#[trigger] rest[j]).names,
                ) by {
                    assert(rest[i] == items[i] && rest[j] == items[j]);
                }
                assert forall|i: int| 0 <= i < rest.len() implies (#[trigger] rest[i]).names.len()
                    > 0 by {
                    assert(rest[i] == items[i]);
                }
            }
            if !is_part(names, last.names) {
                assert forall|i: int| 0 <= i < shorter.len() implies !is_part(
                    (#[trigger] shorter[i]).names,
                    last.names,
                ) && !is_part(last.names, shorter[i].names) by {
                    assert(shorter.contains(shorter[i]));
                    assert(rest.contains(shorter[i]));
                    let k = choose|k: int| 0 <= k < rest.len() && rest[k] == shorter[i];
                    assert(items[k] == shorter[i]);
                    assert(items[items.len() - 1] == last);
                }
                assert(items[items.len() - 1].names.len() > 0);
                lemma_minimal_push(shorter, last);
            }
        }
    }
}

/// Minimal sets stay minimal with a set that is neither wider nor narrower.
proof fn lemma_minimal_push(items: Seq<UnlockView>, item: UnlockView)
    requires
        is_minimal(items),
        item.names.len() > 0,
        forall|i: int|
            0 <= i < items.len() ==> !is_part((#[trigger] items[i]).names, item.names) && !is_part(
                item.names,
                items[i].names,
            ),
    ensures
        is_minimal(items.push(item)),
{
    let all = items.push(item);
    assert forall|i: int, j: int|
        0 <= i < all.len() && 0 <= j < all.len() && i != j implies !is_part(
        (#[trigger] all[i]).names,
        (#[trigger] all[j]).names,
    ) by {
        if i < items.len() {
            assert(all[i] == items[i]);
        }
        if j < items.len() {
            assert(all[j] == items[j]);
        }
    }
    assert forall|i: int| 0 <= i < all.len() implies (#[trigger] all[i]).names.len() > 0 by {
        if i < items.len() {
            assert(all[i] == items[i]);
        }
    }
}

/// Adding an unlock keeps sets minimal, and every set that was there or is added
/// still has one within it.
proof fn lemma_with_unlock(items: Seq<UnlockView>, item: UnlockView)
    requires
        is_minimal(items),
    ensures
        is_minimal(with_unlock(items, item)),
        item.names.len() > 0 ==> has_part(with_unlock(items, item), item.names),
        forall|x: Seq<Seq<char>>|
            has_part(items, x) ==> #[trigger] has_part(with_unlock(items, item), x),
        forall|x: UnlockView| #[trigger]
            with_unlock(items, item).contains(x) ==> items.contains(x) || (x == item && !has_part(
                items,
                item.names,
            )),
{
    let all = with_unlock(items, item);
    let names = item.names;
    lemma_without_wider(items, names);
    if names.len() > 0 && !has_part(items, names) {
        let kept = without_wider(items, names);
        assert(all == kept.push(item));
        lemma_push_contains(kept, item);
        assert forall|i: int| 0 <= i < kept.len() implies !is_part(
            (#[trigger] kept[i]).names,
            names,
        ) && !is_part(names, kept[i].names) by {
            assert(kept.contains(kept[i]));
            let k = choose|k: int| 0 <= k < items.len() && items[k] == kept[i];
            assert(!is_part(items[k].names, names));
        }
        lemma_minimal_push(kept, item);
        assert(all[all.len() - 1] == item);
        assert(is_part(names, names));
        assert(has_part(all, names));
        assert forall|x: Seq<Seq<char>>| has_part(items, x) implies #[trigger] has_part(all, x) by {
            let k = choose|k: int| 0 <= k < items.len() && is_part((#[trigger] items[k]).names, x);
            if is_part(names, items[k].names) {
                lemma_part_of_part(names, items[k].names, x);
                assert(is_part(all[all.len() - 1].names, x));
            } else {
                assert(items.contains(items[k]));
                assert(kept.contains(items[k]));
                let j = choose|j: int| 0 <= j < kept.len() && kept[j] == items[k];
                assert(all[j] == kept[j]);
                assert(is_part(all[j].names, x));
            }
        }
    }
}

/// The minimal unlocks come from the unlocks, have a set within each of theirs,
/// and none is dearer than an unlock with a set within its own.
proof fn lemma_minimal(items: Seq<UnlockView>)
    requires
        costs_ascend(items),
    ensures
        is_minimal(minimal(items)),
        forall|x: UnlockView| #[trigger] minimal(items).contains(x) ==> items.contains(x),
        forall|x: UnlockView| #[trigger]
            items.contains(x) && x.names.len() > 0 ==> has_part(minimal(items), x.names),
        forall|x: UnlockView, y: UnlockView|
            #![trigger minimal(items).contains(x), items.contains(y)]
            minimal(items).contains(x) && items.contains(y) && y.names.len() > 0 && is_part(
                y.names,
                x.names,
            ) ==> x.cost.rank() <= y.cost.rank(),
    decreases items.len(),
{
    if items.len() > 0 {
        let rest = items.drop_last();
        let last = items.last();
        assert(costs_ascend(rest)) by {
            assert forall|i: int, j: int| 0 <= i < j < rest.len() implies (
            #[trigger] rest[i]).cost.rank() <= (#[trigger] rest[j]).cost.rank() by {
                assert(rest[i] == items[i] && rest[j] == items[j]);
            }
        }
        lemma_minimal(rest);
        let before = minimal(rest);
        let all = minimal(items);
        lemma_with_unlock(before, last);
        assert(items =~= rest.push(last));
        lemma_push_contains(rest, last);
        assert forall|x: UnlockView, y: UnlockView|
            #![trigger all.contains(x), items.contains(y)]
            all.contains(x) && items.contains(y) && y.names.len() > 0 && is_part(
                y.names,
                x.names,
            ) implies x.cost.rank() <= y.cost.rank() by {
            if before.contains(x) {
                assert(rest.contains(x));
                if !rest.contains(y) {
                    assert(y == last);
                    let k = choose|k: int| 0 <= k < rest.len() && rest[k] == x;
                    assert(items[k] == x && items[items.len() - 1] == last);
                }
            } else {
                assert(x == last);
                if rest.contains(y) {
                    assert(has_part(before, y.names));
                    let k = choose|k: int|
                        0 <= k < before.len() && is_part((#[trigger] before[k]).names, y.names);
                    lemma_part_of_part(before[k].names, y.names, x.names);
                    assert(has_part(before, last.names));
                }
            }
        }
    } else {
        assert(minimal(items) =~= Seq::<UnlockView>::empty());
    }
}

/// The unlocks of one cost are those that have it.
proof fn lemma_of_cost(items: Seq<UnlockView>, cost: CostClass)
    ensures
        forall|x: UnlockView| #[trigger]
            of_cost(items, cost).contains(x) <==> items.contains(x) && x.cost == cost,
    decreases items.len(),
{
    reveal(Seq::filter);
    let kept = of_cost(items, cost);
    if items.len() > 0 {
        let rest = items.drop_last();
        lemma_of_cost(rest, cost);
        assert(items =~= rest.push(items.last()));
        lemma_push_contains(rest, items.last());
        lemma_push_contains(of_cost(rest, cost), items.last());
    } else {
        assert(kept =~= Seq::<UnlockView>::empty());
    }
}

/// What a joined sequence contains.
proof fn lemma_join_contains(a: Seq<UnlockView>, b: Seq<UnlockView>)
    ensures
        forall|x: UnlockView| #[trigger] (a + b).contains(x) <==> a.contains(x) || b.contains(x),
{
    let all = a + b;
    assert forall|x: UnlockView| #[trigger] all.contains(x) <==> a.contains(x) || b.contains(
        x,
    ) by {
        if all.contains(x) {
            let k = choose|k: int| 0 <= k < all.len() && all[k] == x;
            if k < a.len() {
                assert(a[k] == x);
            } else {
                assert(b[k - a.len()] == x);
            }
        }
        if a.contains(x) {
            let k = choose|k: int| 0 <= k < a.len() && a[k] == x;
            assert(all[k] == x);
        }
        if b.contains(x) {
            let k = choose|k: int| 0 <= k < b.len() && b[k] == x;
            assert(all[a.len() + k] == x);
        }
    }
}

/// Dearer unlocks behind cheaper ones.
proof fn lemma_join_ascends(a: Seq<UnlockView>, b: Seq<UnlockView>, cost: CostClass)
    requires
        costs_ascend(a),
        forall|x: UnlockView| #[trigger] a.contains(x) ==> x.cost.rank() <= cost.rank(),
        forall|x: UnlockView| #[trigger] b.contains(x) ==> x.cost == cost,
    ensures
        costs_ascend(a + b),
        forall|x: UnlockView| #[trigger] (a + b).contains(x) ==> x.cost.rank() <= cost.rank(),
{
    lemma_join_contains(a, b);
    let all = a + b;
    assert forall|i: int, j: int| 0 <= i < j < all.len() implies (#[trigger] all[i]).cost.rank()
        <= (#[trigger] all[j]).cost.rank() by {
        assert(all.contains(all[i]));
        if j < a.len() {
            assert(all[i] == a[i] && all[j] == a[j]);
        } else {
            assert(all[j] == b[j - a.len()]);
            assert(b.contains(all[j]));
            if i < a.len() {
                assert(a.contains(a[i]));
            } else {
                assert(b.contains(b[i - a.len()]));
            }
        }
    }
}

/// Putting the cheapest first changes the order only.
proof fn lemma_cheap_first(items: Seq<UnlockView>)
    ensures
        costs_ascend(cheap_first(items)),
        forall|x: UnlockView| #[trigger] cheap_first(items).contains(x) <==> items.contains(x),
{
    let c0 = of_cost(items, CostClass::C0);
    let c1 = of_cost(items, CostClass::C1);
    let c2 = of_cost(items, CostClass::C2);
    let c3 = of_cost(items, CostClass::C3);
    let c4 = of_cost(items, CostClass::C4);
    lemma_of_cost(items, CostClass::C0);
    lemma_of_cost(items, CostClass::C1);
    lemma_of_cost(items, CostClass::C2);
    lemma_of_cost(items, CostClass::C3);
    lemma_of_cost(items, CostClass::C4);
    assert(costs_ascend(c0)) by {
        assert forall|i: int, j: int| 0 <= i < j < c0.len() implies (#[trigger] c0[i]).cost.rank()
            <= (#[trigger] c0[j]).cost.rank() by {
            assert(c0.contains(c0[i]) && c0.contains(c0[j]));
        }
    }
    lemma_join_contains(c0, c1);
    lemma_join_ascends(c0, c1, CostClass::C1);
    lemma_join_contains(c0 + c1, c2);
    lemma_join_ascends(c0 + c1, c2, CostClass::C2);
    lemma_join_contains(c0 + c1 + c2, c3);
    lemma_join_ascends(c0 + c1 + c2, c3, CostClass::C3);
    lemma_join_contains(c0 + c1 + c2 + c3, c4);
    lemma_join_ascends(c0 + c1 + c2 + c3, c4, CostClass::C4);
    assert forall|x: UnlockView| #[trigger] cheap_first(items).contains(x) <==> items.contains(
        x,
    ) by {
        match x.cost {
            CostClass::C0 => {},
            CostClass::C1 => {},
            CostClass::C2 => {},
            CostClass::C3 => {},
            CostClass::C4 => {},
        }
    }
}

/// Placing an unlock by its rank puts it somewhere among the others.
proof fn lemma_placed(items: Seq<UnlockView>, item: UnlockView) -> (at: int)
    requires
        is_ranked(items),
    ensures
        0 <= at <= items.len(),
        placed_by_rank(items, item) == items.take(at).push(item) + items.skip(at),
        is_ranked(placed_by_rank(items, item)),
    decreases items.len(),
{
    let all = placed_by_rank(items, item);
    if items.len() == 0 || may_precede(items.last(), item) {
        let at = items.len() as int;
        assert(all =~= items.take(at).push(item) + items.skip(at));
        assert forall|i: int, j: int| 0 <= i < j < all.len() implies may_precede(
            #[trigger] all[i],
            #[trigger] all[j],
        ) by {
            assert(all[i] == items[i]);
            if j < items.len() {
                assert(all[j] == items[j]);
            } else if i < items.len() - 1 {
                assert(may_precede(items[i], items[items.len() - 1]));
            }
        }
        at
    } else {
        let rest = items.drop_last();
        assert(is_ranked(rest)) by {
            assert forall|i: int, j: int| 0 <= i < j < rest.len() implies may_precede(
                #[trigger] rest[i],
                #[trigger] rest[j],
            ) by {
                assert(rest[i] == items[i] && rest[j] == items[j]);
            }
        }
        let at = lemma_placed(rest, item);
        assert(all =~= items.take(at).push(item) + items.skip(at));
        let inner = placed_by_rank(rest, item);
        assert forall|i: int, j: int| 0 <= i < j < all.len() implies may_precede(
            #[trigger] all[i],
            #[trigger] all[j],
        ) by {
            if j < inner.len() {
                assert(all[i] == inner[i] && all[j] == inner[j]);
            } else {
                assert(all[j] == items.last());
                if i < at {
                    assert(all[i] == items[i]);
                } else if i > at {
                    assert(all[i] == items[i - 1]);
                }
            }
        }
        at
    }
}

/// Sorting by rank keeps the unlocks.
proof fn lemma_by_rank(items: Seq<UnlockView>)
    ensures
        is_ranked(by_rank(items)),
        forall|x: UnlockView| #[trigger] by_rank(items).contains(x) <==> items.contains(x),
        is_minimal(items) ==> is_minimal(by_rank(items)),
    decreases items.len(),
{
    if items.len() > 0 {
        let rest = items.drop_last();
        let last = items.last();
        lemma_by_rank(rest);
        let inner = by_rank(rest);
        let all = by_rank(items);
        let at = lemma_placed(inner, last);
        assert(all == inner.take(at).push(last) + inner.skip(at));
        assert(all[at] == last);
        assert(items =~= rest.push(last));
        lemma_push_contains(rest, last);
        assert forall|x: UnlockView| #[trigger] all.contains(x) <==> items.contains(x) by {
            if all.contains(x) {
                let k = choose|k: int| 0 <= k < all.len() && all[k] == x;
                if k != at {
                    assert(inner[if k < at {
                        k
                    } else {
                        k - 1
                    }] == x);
                    assert(inner.contains(x));
                }
            }
            if items.contains(x) && x != last {
                assert(inner.contains(x));
                let k = choose|k: int| 0 <= k < inner.len() && inner[k] == x;
                assert(all[if k < at {
                    k
                } else {
                    k + 1
                }] == x);
            }
        }
        if is_minimal(items) {
            assert(is_minimal(rest)) by {
                assert forall|i: int, j: int|
                    0 <= i < rest.len() && 0 <= j < rest.len() && i != j implies !is_part(
                    (#[trigger] rest[i]).names,
                    (#[trigger] rest[j]).names,
                ) by {
                    assert(rest[i] == items[i] && rest[j] == items[j]);
                }
                assert forall|i: int| 0 <= i < rest.len() implies (#[trigger] rest[i]).names.len()
                    > 0 by {
                    assert(rest[i] == items[i]);
                }
            }
            assert forall|i: int| 0 <= i < inner.len() implies !is_part(
                (#[trigger] inner[i]).names,
                last.names,
            ) && !is_part(last.names, inner[i].names) by {
                assert(inner.contains(inner[i]));
                let k = choose|k: int| 0 <= k < rest.len() && rest[k] == inner[i];
                assert(items[k] == inner[i]);
                assert(items[items.len() - 1] == last);
            }
            assert(last.names.len() > 0) by {
                assert(items[items.len() - 1] == last);
            }
            assert forall|i: int, j: int|
                0 <= i < all.len() && 0 <= j < all.len() && i != j implies !is_part(
                (#[trigger] all[i]).names,
                (#[trigger] all[j]).names,
            ) by {
                if i != at {
                    assert(all[i] == inner[if i < at {
                        i
                    } else {
                        i - 1
                    }]);
                }
                if j != at {
                    assert(all[j] == inner[if j < at {
                        j
                    } else {
                        j - 1
                    }]);
                }
            }
            assert forall|i: int| 0 <= i < all.len() implies (#[trigger] all[i]).names.len()
                > 0 by {
                if i != at {
                    assert(all[i] == inner[if i < at {
                        i
                    } else {
                        i - 1
                    }]);
                }
            }
        }
    }
}

/// The best unlocks are minimal and ranked, come from the unlocks, have a set
/// within each of theirs, and have the cost of the cheapest path.
proof fn lemma_best(items: Seq<UnlockView>)
    ensures
        is_minimal(best_unlocks(items)),
        is_ranked(best_unlocks(items)),
        forall|x: UnlockView| #[trigger] best_unlocks(items).contains(x) ==> items.contains(x),
        forall|x: UnlockView| #[trigger]
            items.contains(x) && x.names.len() > 0 ==> has_part(best_unlocks(items), x.names),
        forall|x: UnlockView, y: UnlockView|
            #![trigger best_unlocks(items).contains(x), items.contains(y)]
            best_unlocks(items).contains(x) && items.contains(y) && y.names.len() > 0 && is_part(
                y.names,
                x.names,
            ) ==> x.cost.rank() <= y.cost.rank(),
{
    let sorted = cheap_first(items);
    let narrow = minimal(sorted);
    let best = best_unlocks(items);
    lemma_cheap_first(items);
    lemma_minimal(sorted);
    lemma_by_rank(narrow);
    assert forall|x: UnlockView| #[trigger]
        items.contains(x) && x.names.len() > 0 implies has_part(best, x.names) by {
        assert(sorted.contains(x));
        let k = choose|k: int|
            0 <= k < narrow.len() && is_part((#[trigger] narrow[k]).names, x.names);
        assert(narrow.contains(narrow[k]));
        assert(best.contains(narrow[k]));
        let j = choose|j: int| 0 <= j < best.len() && best[j] == narrow[k];
        assert(is_part(best[j].names, x.names));
    }
    assert forall|x: UnlockView, y: UnlockView|
        #![trigger best.contains(x), items.contains(y)]
        best.contains(x) && items.contains(y) && y.names.len() > 0 && is_part(
            y.names,
            x.names,
        ) implies x.cost.rank() <= y.cost.rank() by {
        assert(narrow.contains(x));
        assert(sorted.contains(y));
    }
}

impl BlameCase {
    /// The ordering that got stuck.
    pub open spec fn problem(self) -> OrderProblem {
        OrderProblem {
            program: self.program,
            catalog: self.catalog,
            supports: self.supports,
            rule: self.rule,
            seeds: self.bound,
            deny_scans: self.deny_scans,
        }
    }

    /// The goal is one of the rule's and calls something that exists, with as many
    /// arguments as it and its modes or patterns have.
    pub open spec fn is_valid(self, index: int) -> bool {
        &&& 0 <= index < self.rule.body@.len()
        &&& goal_wf(self.program, self.catalog, self.rule, self.goal(index))
        &&& self.catalog.wf()
        &&& match self.goal(index).target {
            GoalRef::Derived(id) => self.supports[id.0 as int].finite() && forall|x: Seq<bool>|
                #[trigger] self.supports[id.0 as int].contains(x) ==> x.len() == self.goal(
                    index,
                ).args@.len(),
            _ => true,
        }
    }

    /// Every argument of the goal that is named is bound in `more`.
    pub open spec fn binds(self, index: int, names: Seq<Seq<char>>, more: Set<u32>) -> bool {
        forall|i: int|
            0 <= i < self.goal(index).args@.len() && names.contains(
                self.rule.term_text(#[trigger] self.goal(index).args@[i]),
            ) ==> flags_of(self.goal(index).args@, more)[i]
    }

    /// Argument `i` is bound in `more` and was not before.
    pub open spec fn is_newly_bound(self, index: int, more: Set<u32>, i: int) -> bool {
        0 <= i < self.goal(index).args@.len() && !self.flags(index)[i] && flags_of(
            self.goal(index).args@,
            more,
        )[i]
    }

    /// The name is that of an argument that is bound in `more` and was not
    /// before.
    pub open spec fn newly_binds_name(self, index: int, name: Seq<char>, more: Set<u32>) -> bool {
        exists|i: int| #[trigger]
            self.is_newly_bound(index, more, i) && self.rule.term_text(self.goal(index).args@[i])
                == name
    }

    /// Every name is that of an argument that is bound in `more` and was not
    /// before.
    pub open spec fn newly_binds(self, index: int, names: Seq<Seq<char>>, more: Set<u32>) -> bool {
        forall|k: int|
            0 <= k < names.len() ==> self.newly_binds_name(index, #[trigger] names[k], more)
    }

    /// The name is that of an argument that an access path waits for.
    spec fn is_waited_for(self, index: int, need: Seq<bool>, upto: int, name: Seq<char>) -> bool {
        exists|i: int|
            0 <= i < upto && #[trigger] self.waits_for(index, need, i) && self.rule.term_text(
                self.goal(index).args@[i],
            ) == name
    }

    /// The names of an access path are those of the arguments it waits for.
    proof fn lemma_missing(self, index: int, need: Seq<bool>, upto: int)
        ensures
            forall|i: int|
                0 <= i < upto && #[trigger] self.waits_for(index, need, i) ==> self.missing_names(
                    index,
                    need,
                    upto,
                ).contains(self.rule.term_text(self.goal(index).args@[i])),
            forall|k: int|
                0 <= k < self.missing_names(index, need, upto).len() ==> self.is_waited_for(
                    index,
                    need,
                    upto,
                    #[trigger] self.missing_names(index, need, upto)[k],
                ),
        decreases upto,
    {
        if upto > 0 {
            self.lemma_missing(index, need, upto - 1);
            let rest = self.missing_names(index, need, upto - 1);
            let all = self.missing_names(index, need, upto);
            assert forall|i: int|
                0 <= i < upto && #[trigger] self.waits_for(index, need, i) implies all.contains(
                self.rule.term_text(self.goal(index).args@[i]),
            ) by {
                let name = self.rule.term_text(self.goal(index).args@[i]);
                if i < upto - 1 {
                    let k = choose|k: int| 0 <= k < rest.len() && rest[k] == name;
                    assert(all[k] == name);
                } else {
                    assert(all[all.len() - 1] == name);
                }
            }
            assert forall|k: int| 0 <= k < all.len() implies self.is_waited_for(
                index,
                need,
                upto,
                #[trigger] all[k],
            ) by {
                if k < rest.len() {
                    assert(all[k] == rest[k]);
                    assert(self.is_waited_for(index, need, upto - 1, rest[k]));
                } else {
                    assert(self.waits_for(index, need, upto - 1));
                }
            }
        }
    }

    /// Where every shared argument is bound a negated goal waits for nothing.
    proof fn lemma_nothing_waits(self, index: int, more: Set<u32>, upto: int)
        requires
            forall|i: int|
                0 <= i < upto && #[trigger] self.is_shared(index, i) ==> flags_of(
                    self.goal(index).args@,
                    more,
                )[i],
            upto <= self.goal(index).args@.len(),
        ensures
            waiting_on(self.rule, index, more, upto).len() == 0,
        decreases upto,
    {
        if upto > 0 {
            self.lemma_nothing_waits(index, more, upto - 1);
            if let Term::Var(var) = self.goal(index).args@[upto - 1] {
                if occurs_elsewhere(self.rule, index, var.0) {
                    assert(self.is_shared(index, upto - 1));
                }
            }
        }
    }

    /// Where a negated goal waits for nothing every shared argument is bound.
    proof fn lemma_waits_for_nothing(self, index: int, more: Set<u32>, upto: int)
        requires
            waiting_on(self.rule, index, more, upto).len() == 0,
            upto <= self.goal(index).args@.len(),
        ensures
            forall|i: int|
                0 <= i < upto && #[trigger] self.is_shared(index, i) ==> flags_of(
                    self.goal(index).args@,
                    more,
                )[i],
        decreases upto,
    {
        if upto > 0 {
            self.lemma_waits_for_nothing(index, more, upto - 1);
        }
    }

    /// Once what a path lacks is bound, its needs are covered and the goal waits
    /// for nothing.
    proof fn lemma_bound_covers(self, index: int, need: Seq<bool>, more: Set<u32>)
        requires
            self.bound.subset_of(more),
            self.binds(index, self.lacking(index, need), more),
            need.len() == self.goal(index).args@.len(),
        ensures
            covered(need, flags_of(self.goal(index).args@, more)),
            self.goal(index).negated ==> shared_unbound_vars(self.rule, index, more).len() == 0,
            self.lacking(index, need).len() > 0 ==> exists|i: int|
                0 <= i < self.goal(index).args@.len() && #[trigger] flags_of(
                    self.goal(index).args@,
                    more,
                )[i],
    {
        let args = self.goal(index).args@;
        let flags = flags_of(args, more);
        let names = self.lacking(index, need);
        self.lemma_missing(index, need, args.len() as int);
        assert forall|i: int| 0 <= i < args.len() && #[trigger] self.waits_for(
            index,
            need,
            i,
        ) implies flags[i] by {
            assert(names.contains(self.rule.term_text(args[i])));
        }
        assert forall|i: int| 0 <= i < need.len() && #[trigger] need[i] implies flags[i] by {
            if !self.flags(index)[i] {
                assert(self.waits_for(index, need, i));
            }
        }
        if self.goal(index).negated {
            assert forall|i: int| 0 <= i < args.len() && #[trigger] self.is_shared(
                index,
                i,
            ) implies flags[i] by {
                if !self.flags(index)[i] {
                    assert(self.waits_for(index, need, i));
                }
            }
            self.lemma_nothing_waits(index, more, args.len() as int);
        }
        if names.len() > 0 {
            assert(self.is_waited_for(index, need, args.len() as int, names[0]));
            let i = choose|i: int|
                0 <= i < args.len() && #[trigger] self.waits_for(index, need, i)
                    && self.rule.term_text(args[i]) == names[0];
            assert(flags[i]);
        }
    }

    /// Once the needs of a path are covered and the goal waits for nothing, what
    /// the path lacked is bound.
    proof fn lemma_covers_binds(self, index: int, need: Seq<bool>, more: Set<u32>)
        requires
            covered(need, flags_of(self.goal(index).args@, more)),
            self.goal(index).negated ==> shared_unbound_vars(self.rule, index, more).len() == 0,
            need.len() == self.goal(index).args@.len(),
        ensures
            self.newly_binds(index, self.lacking(index, need), more),
            self.lacking(index, need).len() == 0 ==> covered(need, self.flags(index)) && (
            self.goal(index).negated ==> shared_unbound_vars(self.rule, index, self.bound).len()
                == 0),
    {
        let args = self.goal(index).args@;
        let flags = flags_of(args, more);
        let names = self.lacking(index, need);
        self.lemma_missing(index, need, args.len() as int);
        if self.goal(index).negated {
            self.lemma_waits_for_nothing(index, more, args.len() as int);
        }
        assert forall|k: int| 0 <= k < names.len() implies self.newly_binds_name(
            index,
            #[trigger] names[k],
            more,
        ) by {
            assert(self.is_waited_for(index, need, args.len() as int, names[k]));
            let i = choose|i: int|
                0 <= i < args.len() && #[trigger] self.waits_for(index, need, i)
                    && self.rule.term_text(args[i]) == names[k];
            assert(need[i] || self.is_shared(index, i));
            assert(self.is_newly_bound(index, more, i));
        }
        if names.len() == 0 {
            assert forall|i: int| 0 <= i < args.len() implies !#[trigger] self.waits_for(
                index,
                need,
                i,
            ) by {}
            assert forall|i: int| 0 <= i < need.len() && #[trigger] need[i] implies self.flags(
                index,
            )[i] by {
                assert(!self.waits_for(index, need, i));
            }
            if self.goal(index).negated {
                assert forall|i: int| 0 <= i < args.len() && #[trigger] self.is_shared(
                    index,
                    i,
                ) implies flags_of(args, self.bound)[i] by {
                    assert(!self.waits_for(index, need, i));
                }
                self.lemma_nothing_waits(index, self.bound, args.len() as int);
            }
        }
    }

    /// What a mode that the goal may run under lacks.
    spec fn of_mode(self, index: int, modes: Seq<ModeDef>, m: int, item: UnlockView) -> bool {
        &&& 0 <= m < modes.len()
        &&& !(self.never_scans(index) && modes[m].access is Scan)
        &&& item == (UnlockView {
            names: self.lacking(index, required(modes[m].pattern@)),
            cost: modes[m].cost,
        })
    }

    proof fn lemma_mode_unlocks(self, index: int, modes: Seq<ModeDef>)
        ensures
            forall|x: UnlockView| #[trigger]
                self.mode_unlocks(index, modes).contains(x) <==> exists|m: int|
                    self.of_mode(index, modes, m, x),
        decreases modes.len(),
    {
        let all = self.mode_unlocks(index, modes);
        if modes.len() > 0 {
            let rest = modes.drop_last();
            self.lemma_mode_unlocks(index, rest);
            let before = self.mode_unlocks(index, rest);
            let last = UnlockView {
                names: self.lacking(index, required(modes.last().pattern@)),
                cost: modes.last().cost,
            };
            lemma_push_contains(before, last);
            assert forall|x: UnlockView| #[trigger] all.contains(x) <==> exists|m: int|
                self.of_mode(index, modes, m, x) by {
                if before.contains(x) {
                    let m = choose|m: int| self.of_mode(index, rest, m, x);
                    assert(self.of_mode(index, modes, m, x));
                }
                if all.contains(x) && !before.contains(x) {
                    assert(self.of_mode(index, modes, modes.len() - 1, x));
                }
                if exists|m: int| self.of_mode(index, modes, m, x) {
                    let m = choose|m: int| self.of_mode(index, modes, m, x);
                    if m < rest.len() {
                        assert(self.of_mode(index, rest, m, x));
                        assert(before.contains(x));
                    }
                }
            }
        }
    }

    proof fn lemma_single_unlocks(self, index: int, upto: int)
        ensures
            forall|x: UnlockView| #[trigger]
                self.single_unlocks(index, upto).contains(x) <==> exists|i: int|
                    #![trigger self.flags(index)[i]]
                    0 <= i < upto && !self.flags(index)[i] && x == (UnlockView {
                        names: seq![self.rule.term_text(self.goal(index).args@[i])],
                        cost: CostClass::C1,
                    }),
        decreases upto,
    {
        let all = self.single_unlocks(index, upto);
        if upto > 0 {
            self.lemma_single_unlocks(index, upto - 1);
            let before = self.single_unlocks(index, upto - 1);
            let last = UnlockView {
                names: seq![self.rule.term_text(self.goal(index).args@[upto - 1])],
                cost: CostClass::C1,
            };
            lemma_push_contains(before, last);
            assert forall|x: UnlockView| #[trigger] all.contains(x) <==> exists|i: int|
                #![trigger self.flags(index)[i]]
                0 <= i < upto && !self.flags(index)[i] && x == (UnlockView {
                    names: seq![self.rule.term_text(self.goal(index).args@[i])],
                    cost: CostClass::C1,
                }) by {
                if all.contains(x) && !before.contains(x) {
                    assert(!self.flags(index)[upto - 1]);
                }
                if exists|i: int|
                    #![trigger self.flags(index)[i]]
                    0 <= i < upto && !self.flags(index)[i] && x == (UnlockView {
                        names: seq![self.rule.term_text(self.goal(index).args@[i])],
                        cost: CostClass::C1,
                    }) {
                    let i = choose|i: int|
                        #![trigger self.flags(index)[i]]
                        0 <= i < upto && !self.flags(index)[i] && x == (UnlockView {
                            names: seq![self.rule.term_text(self.goal(index).args@[i])],
                            cost: CostClass::C1,
                        });
                    if i < upto - 1 {
                        assert(before.contains(x));
                    }
                }
            }
        }
    }

    proof fn lemma_pattern_unlocks(self, index: int, patterns: Seq<Seq<bool>>)
        ensures
            forall|x: UnlockView| #[trigger]
                self.pattern_unlocks(index, patterns).contains(x) <==> exists|m: int|
                    0 <= m < patterns.len() && #[trigger] self.call_unlocks(
                        index,
                        patterns[m],
                    ).contains(x),
        decreases patterns.len(),
    {
        let all = self.pattern_unlocks(index, patterns);
        if patterns.len() > 0 {
            let rest = patterns.drop_last();
            self.lemma_pattern_unlocks(index, rest);
            let before = self.pattern_unlocks(index, rest);
            lemma_join_contains(before, self.call_unlocks(index, patterns.last()));
            assert forall|x: UnlockView| #[trigger] all.contains(x) <==> exists|m: int|
                0 <= m < patterns.len() && #[trigger] self.call_unlocks(
                    index,
                    patterns[m],
                ).contains(x) by {
                if before.contains(x) {
                    let m = choose|m: int|
                        0 <= m < rest.len() && #[trigger] self.call_unlocks(
                            index,
                            rest[m],
                        ).contains(x);
                    assert(self.call_unlocks(index, patterns[m]).contains(x));
                }
                if self.call_unlocks(index, patterns.last()).contains(x) {
                    assert(self.call_unlocks(index, patterns[patterns.len() - 1]).contains(x));
                }
                if exists|m: int|
                    0 <= m < patterns.len() && #[trigger] self.call_unlocks(
                        index,
                        patterns[m],
                    ).contains(x) {
                    let m = choose|m: int|
                        0 <= m < patterns.len() && #[trigger] self.call_unlocks(
                            index,
                            patterns[m],
                        ).contains(x);
                    if m < rest.len() {
                        assert(self.call_unlocks(index, rest[m]).contains(x));
                        assert(before.contains(x));
                    }
                }
            }
        }
    }

    /// The sets that a blamed goal is told to lack are minimal: none is empty and
    /// none is within another. They come with costs: each has that of the cheapest
    /// access path that lacks no more, cheaper sets stand first, and of equally
    /// cheap ones the smaller.
    pub proof fn law_unlock_sets_are_minimal(self, index: int)
        ensures
            ({
                let paths = self.path_unlocks(index);
                let best = best_unlocks(paths);
                &&& self.unlock_sets(index) == unlock_names(best)
                &&& is_minimal(best)
                &&& is_ranked(best)
                &&& forall|s: int| 0 <= s < best.len() ==> paths.contains(#[trigger] best[s])
                &&& forall|s: int, k: int|
                    0 <= s < best.len() && 0 <= k < paths.len() && (
                    #[trigger] paths[k]).names.len() > 0 && is_part(
                        paths[k].names,
                        (#[trigger] best[s]).names,
                    ) ==> best[s].cost.rank() <= paths[k].cost.rank()
            }),
    {
        let paths = self.path_unlocks(index);
        let best = best_unlocks(paths);
        lemma_best(paths);
        assert forall|s: int| 0 <= s < best.len() implies paths.contains(#[trigger] best[s]) by {
            assert(best.contains(best[s]));
        }
        assert forall|s: int, k: int|
            0 <= s < best.len() && 0 <= k < paths.len() && (#[trigger] paths[k]).names.len() > 0
                && is_part(paths[k].names, (#[trigger] best[s]).names) implies best[s].cost.rank()
            <= paths[k].cost.rank() by {
            assert(best.contains(best[s]));
            assert(paths.contains(paths[k]));
        }
    }

    /// Each of the sets would unblock the goal: once every argument that it names
    /// is bound, the goal has an access path.
    pub proof fn law_unlock_sets_unblock(self, index: int, s: int, more: Set<u32>)
        requires
            self.is_valid(index),
            0 <= s < self.unlock_sets(index).len(),
            self.bound.subset_of(more),
            self.binds(index, self.unlock_sets(index)[s], more),
        ensures
            self.problem().access_path(index, more) is Some,
    {
        let paths = self.path_unlocks(index);
        let best = best_unlocks(paths);
        lemma_best(paths);
        let item = best[s];
        assert(best.contains(item));
        assert(paths.contains(item));
        assert(item.names.len() > 0);
        assert(self.binds(index, item.names, more));
        let goal = self.goal(index);
        let args = goal.args@;
        let flags = flags_of(args, more);
        match goal.target {
            GoalRef::Extern(name) => {
                let p = self.catalog.lookup(name@);
                self.lemma_mode_unlocks(index, p.modes@);
                let m = choose|m: int| self.of_mode(index, p.modes@, m, item);
                assert(p.wf());
                self.lemma_bound_covers(index, required(p.modes@[m].pattern@), more);
                assert(usable_mode(p, flags, self.never_scans(index), m));
                lemma_best_mode_exists(p, flags, self.never_scans(index), m);
            },
            GoalRef::Derived(id) => {
                let set = self.supports[id.0 as int];
                let patterns = in_order(set);
                lemma_in_order(set);
                self.lemma_pattern_unlocks(index, patterns);
                let m = choose|m: int|
                    0 <= m < patterns.len() && #[trigger] self.call_unlocks(
                        index,
                        patterns[m],
                    ).contains(item);
                let pattern = patterns[m];
                assert(patterns.to_set().contains(pattern));
                assert(set.contains(pattern));
                let names = self.lacking(index, pattern);
                if goal.negated && names.len() == 0 {
                    self.lemma_single_unlocks(index, args.len() as int);
                    let i = choose|i: int|
                        #![trigger self.flags(index)[i]]
                        0 <= i < args.len() && !self.flags(index)[i] && item == (UnlockView {
                            names: seq![self.rule.term_text(args[i])],
                            cost: CostClass::C1,
                        });
                    assert(item.names[0] == self.rule.term_text(args[i]));
                    assert(item.names.contains(self.rule.term_text(args[i])));
                    assert(flags[i]);
                    self.lemma_bound_covers(index, pattern, more);
                } else {
                    assert(item.names == names);
                    self.lemma_bound_covers(index, pattern, more);
                }
                assert(supported(set, flags));
            },
            GoalRef::Builtin(id) => {
                let pattern = self.program.builtins@[id.0 as int].pattern@;
                let need = self.builtin_need(index, pattern);
                assert(paths[0] == item);
                self.lemma_bound_covers(index, need, more);
                assert forall|i: int|
                    0 <= i < required(pattern).len() && #[trigger] required(
                        pattern,
                    )[i] implies flags[i] by {
                    assert(need[i]);
                }
                if goal.negated {
                    assert forall|i: int| 0 <= i < flags.len() implies #[trigger] flags[i] by {
                        assert(need[i]);
                    }
                    lemma_all_bound(flags);
                }
            },
            GoalRef::Input(_) => {
                assert(paths[0] == item);
                self.lemma_bound_covers(index, Seq::new(args.len(), |i: int| false), more);
            },
        }
    }

    /// A stuck goal is told that scans are denied exactly if it would have an
    /// access path were they allowed.
    pub proof fn law_told_denials_are_the_cause(self, index: int)
        requires
            self.is_valid(index),
            self.deny_scans,
            self.problem().access_path(index, self.bound) is None,
        ensures
            self.scans_denied(index) <==> (OrderProblem {
                deny_scans: false,
                ..self.problem()
            }).access_path(index, self.bound) is Some,
    {
        let goal = self.goal(index);
        let flags = self.flags(index);
        if let GoalRef::Extern(name) = goal.target {
            let p = self.catalog.lookup(name@);
            let free = OrderProblem { deny_scans: false, ..self.problem() };
            if self.scans_denied(index) {
                let m = choose|m: int| #[trigger] self.scan_fits(index, p, m);
                lemma_best_mode_exists(p, flags, false, m);
            }
            if free.access_path(index, self.bound) is Some {
                let m = choose|m: int| is_best_mode(p, flags, goal.negated, m);
                assert(usable_mode(p, flags, goal.negated, m));
                if !(p.modes@[m].access is Scan) {
                    assert(usable_mode(p, flags, true, m));
                    lemma_best_mode_exists(p, flags, true, m);
                }
                assert(self.scan_fits(index, p, m));
            }
        }
    }

    /// Nothing else unblocks the goal: where it is stuck and more bindings give it
    /// an access path, these bind all that one of the sets names.
    pub proof fn law_unlock_sets_are_complete(self, index: int, more: Set<u32>)
        requires
            self.is_valid(index),
            self.bound.subset_of(more),
            self.problem().access_path(index, self.bound) is None,
            self.problem().access_path(index, more) is Some,
        ensures
            exists|s: int|
                0 <= s < self.unlock_sets(index).len() && self.newly_binds(
                    index,
                    #[trigger] self.unlock_sets(index)[s],
                    more,
                ),
    {
        let paths = self.path_unlocks(index);
        let best = best_unlocks(paths);
        lemma_best(paths);
        let goal = self.goal(index);
        let args = goal.args@;
        let flags = flags_of(args, more);
        assert(goal.negated ==> shared_unbound_vars(self.rule, index, more).len() == 0);
        let item = match goal.target {
            GoalRef::Extern(name) => {
                let p = self.catalog.lookup(name@);
                let m = choose|m: int|
                    is_best_mode(p, flags, self.never_scans(index), m);
                assert(usable_mode(p, flags, self.never_scans(index), m));
                assert(p.wf());
                let need = required(p.modes@[m].pattern@);
                self.lemma_covers_binds(index, need, more);
                let item = UnlockView { names: self.lacking(index, need), cost: p.modes@[m].cost };
                if item.names.len() == 0 {
                    assert(usable_mode(p, self.flags(index), self.never_scans(index), m));
                    lemma_best_mode_exists(p, self.flags(index), self.never_scans(index), m);
                }
                self.lemma_mode_unlocks(index, p.modes@);
                assert(self.of_mode(index, p.modes@, m, item));
                item
            },
            GoalRef::Derived(id) => {
                let set = self.supports[id.0 as int];
                let patterns = in_order(set);
                lemma_in_order(set);
                let pattern = choose|x: Seq<bool>| #[trigger] set.contains(x) && covered(x, flags);
                assert(patterns.to_set().contains(pattern));
                let m = choose|m: int| 0 <= m < patterns.len() && patterns[m] == pattern;
                self.lemma_covers_binds(index, pattern, more);
                self.lemma_pattern_unlocks(index, patterns);
                let names = self.lacking(index, pattern);
                let item = if names.len() == 0 {
                    assert(supported(set, self.flags(index)));
                    assert(goal.negated && unseeded(self.flags(index)));
                    assert(flags.len() > 0);
                    let i = choose|i: int| 0 <= i < flags.len() && #[trigger] flags[i];
                    assert(!self.flags(index)[i]);
                    assert(self.is_newly_bound(index, more, i));
                    let single = UnlockView {
                        names: seq![self.rule.term_text(args[i])],
                        cost: CostClass::C1,
                    };
                    self.lemma_single_unlocks(index, args.len() as int);
                    assert(self.call_unlocks(index, patterns[m]).contains(single));
                    assert(self.newly_binds(index, single.names, more));
                    single
                } else {
                    let whole = UnlockView { names, cost: CostClass::C1 };
                    assert(self.call_unlocks(index, patterns[m])[0] == whole);
                    assert(self.call_unlocks(index, patterns[m]).contains(whole));
                    whole
                };
                item
            },
            GoalRef::Builtin(id) => {
                let pattern = self.program.builtins@[id.0 as int].pattern@;
                let need = self.builtin_need(index, pattern);
                if goal.negated {
                    lemma_none_free(flags);
                }
                assert(covered(need, flags)) by {
                    assert forall|i: int|
                        0 <= i < need.len() && #[trigger] need[i] implies flags[i] by {
                        if pattern[i] is Bound {
                            assert(required(pattern)[i]);
                        }
                    }
                }
                self.lemma_covers_binds(index, need, more);
                let item = paths[0];
                if item.names.len() == 0 {
                    assert forall|i: int|
                        0 <= i < required(pattern).len() && #[trigger] required(
                            pattern,
                        )[i] implies self.flags(index)[i] by {
                        assert(need[i]);
                    }
                    if goal.negated {
                        assert forall|i: int| 0 <= i < self.flags(index).len() implies
                            #[trigger] self.flags(index)[i] by {
                            assert(need[i]);
                        }
                        lemma_all_bound(self.flags(index));
                    }
                }
                item
            },
            GoalRef::Input(_) => {
                let need = Seq::new(args.len(), |i: int| false);
                self.lemma_covers_binds(index, need, more);
                paths[0]
            },
        };
        assert(item.names.len() > 0);
        assert(paths.contains(item));
        assert(has_part(best, item.names));
        let k = choose|k: int|
            0 <= k < best.len() && is_part((#[trigger] best[k]).names, item.names);
        let names = best[k].names;
        assert(self.unlock_sets(index)[k] == names);
        assert(self.newly_binds(index, item.names, more));
        assert forall|n: int| 0 <= n < names.len() implies self.newly_binds_name(
            index,
            #[trigger] names[n],
            more,
        ) by {
            assert(item.names.contains(names[n]));
            let l = choose|l: int| 0 <= l < item.names.len() && item.names[l] == names[n];
            assert(self.newly_binds_name(index, item.names[l], more));
        }
        assert(self.newly_binds(index, self.unlock_sets(index)[k], more));
    }
}

/// Where all is bound nothing is free.
proof fn lemma_all_bound(flags: Seq<bool>)
    requires
        forall|i: int| 0 <= i < flags.len() ==> #[trigger] flags[i],
    ensures
        free_count(flags) == 0,
    decreases flags.len(),
{
    if flags.len() > 0 {
        assert(flags[flags.len() - 1]);
        let rest = flags.drop_last();
        assert forall|i: int| 0 <= i < rest.len() implies #[trigger] rest[i] by {
            assert(rest[i] == flags[i]);
        }
        lemma_all_bound(rest);
    }
}

/// Where nothing is free all is bound.
proof fn lemma_none_free(flags: Seq<bool>)
    requires
        free_count(flags) == 0,
    ensures
        forall|i: int| 0 <= i < flags.len() ==> #[trigger] flags[i],
    decreases flags.len(),
{
    if flags.len() > 0 {
        let rest = flags.drop_last();
        lemma_none_free(rest);
        assert forall|i: int| 0 <= i < flags.len() implies #[trigger] flags[i] by {
            if i < rest.len() {
                assert(rest[i] == flags[i]);
            }
        }
    }
}

} // verus!
