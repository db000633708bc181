//! Ordered sets of binding patterns.

use crate::plan::mode::{
    covered, lemma_pattern_number, lemma_pattern_order_total, lemma_pattern_order_transitive,
    mask_pattern, pattern_lt, pattern_number, Pattern,
};
use vstd::prelude::*;

verus! {

/// Each pattern comes before all that follow it.
pub open spec fn ascending(items: Seq<Seq<bool>>) -> bool {
    forall|i: int, j: int|
        0 <= i < j < items.len() ==> pattern_lt(#[trigger] items[i], #[trigger] items[j])
}

/// The patterns of a finite set in ascending order.
pub open spec fn in_order(set: Set<Seq<bool>>) -> Seq<Seq<bool>> {
    choose|items: Seq<Seq<bool>>| #[trigger] ascending(items) && items.to_set() == set
}

/// There is only one ascending sequence of the same patterns.
pub proof fn lemma_ascending_unique(a: Seq<Seq<bool>>, b: Seq<Seq<bool>>)
    requires
        ascending(a),
        ascending(b),
        a.to_set() == b.to_set(),
    ensures
        a == b,
    decreases a.len(),
{
    if a.len() == 0 {
        if b.len() > 0 {
            assert(b.to_set().contains(b[0]));
            assert(a.to_set().contains(b[0]));
        }
        assert(a =~= b);
    } else {
        assert(a.to_set().contains(a.last()));
        assert(b.to_set().contains(a.last()));
        let k = choose|k: int| 0 <= k < b.len() && b[k] == a.last();
        assert(b.to_set().contains(b.last()));
        assert(a.to_set().contains(b.last()));
        let l = choose|l: int| 0 <= l < a.len() && a[l] == b.last();
        if l < a.len() - 1 {
            assert(pattern_lt(a[l], a.last()));
            if k < b.len() - 1 {
                assert(pattern_lt(b[k], b.last()));
            }
            lemma_pattern_order_total(a.last(), b.last());
        }
        assert(a.last() == b.last());
        let x = a.drop_last();
        let y = b.drop_last();
        assert forall|p: Seq<bool>| x.to_set().contains(p) <==> y.to_set().contains(p) by {
            lemma_pattern_order_total(a.last(), a.last());
            if x.to_set().contains(p) {
                let i = choose|i: int| 0 <= i < x.len() && x[i] == p;
                assert(a[i] == p && pattern_lt(a[i], a.last()));
                assert(a.to_set().contains(p));
                let j = choose|j: int| 0 <= j < b.len() && b[j] == p;
                assert(j != b.len() - 1);
                assert(y[j] == p);
            }
            if y.to_set().contains(p) {
                let i = choose|i: int| 0 <= i < y.len() && y[i] == p;
                assert(b[i] == p && pattern_lt(b[i], b.last()));
                assert(b.to_set().contains(p));
                let j = choose|j: int| 0 <= j < a.len() && a[j] == p;
                assert(j != a.len() - 1);
                assert(x[j] == p);
            }
        }
        assert(x.to_set() =~= y.to_set());
        lemma_ascending_unique(x, y);
        assert(a =~= x.push(a.last()));
        assert(b =~= y.push(b.last()));
    }
}

/// Ascending patterns with one more in its place.
spec fn with_pattern(items: Seq<Seq<bool>>, pattern: Seq<bool>) -> Seq<Seq<bool>>
    decreases items.len(),
{
    if items.len() == 0 || pattern_lt(items.last(), pattern) {
        items.push(pattern)
    } else {
        with_pattern(items.drop_last(), pattern).push(items.last())
    }
}

proof fn lemma_with_pattern(items: Seq<Seq<bool>>, pattern: Seq<bool>)
    requires
        ascending(items),
        !items.contains(pattern),
    ensures
        ascending(with_pattern(items, pattern)),
        forall|x: Seq<bool>| #[trigger]
            with_pattern(items, pattern).contains(x) <==> items.contains(x) || x == pattern,
    decreases items.len(),
{
    let all = with_pattern(items, pattern);
    if items.len() == 0 || pattern_lt(items.last(), pattern) {
        assert forall|i: int, j: int| 0 <= i < j < all.len() implies pattern_lt(
            #[trigger] all[i],
            #[trigger] all[j],
        ) by {
            assert(all[i] == items[i]);
            if j < items.len() {
                assert(all[j] == items[j]);
            } else if i < items.len() - 1 {
                assert(pattern_lt(items[i], items[items.len() - 1]));
                lemma_pattern_order_transitive(items[i], items.last(), pattern);
            }
        }
        assert(all[items.len() as int] == pattern);
        assert forall|x: Seq<bool>| #[trigger] all.contains(x) <==> items.contains(x) || x
            == pattern by {
            if items.contains(x) {
                let k = choose|k: int| 0 <= k < items.len() && items[k] == x;
                assert(all[k] == x);
            }
        }
    } else {
        let rest = items.drop_last();
        let last = items.last();
        assert(items[items.len() - 1] == last);
        assert(ascending(rest)) by {
            assert forall|i: int, j: int| 0 <= i < j < rest.len() implies pattern_lt(
                #[trigger] rest[i],
                #[trigger] rest[j],
            ) by {
                assert(rest[i] == items[i] && rest[j] == items[j]);
            }
        }
        assert(!rest.contains(pattern)) by {
            if rest.contains(pattern) {
                let k = choose|k: int| 0 <= k < rest.len() && rest[k] == pattern;
                assert(items[k] == pattern);
            }
        }
        lemma_with_pattern(rest, pattern);
        lemma_pattern_order_total(last, pattern);
        let inner = with_pattern(rest, pattern);
        assert forall|i: int, j: int| 0 <= i < j < all.len() implies pattern_lt(
            #[trigger] all[i],
            #[trigger] all[j],
        ) by {
            assert(all[i] == inner[i]);
            if j < inner.len() {
                assert(all[j] == inner[j]);
            } else {
                assert(inner.contains(inner[i]));
                if inner[i] != pattern {
                    let k = choose|k: int| 0 <= k < rest.len() && rest[k] == inner[i];
                    assert(items[k] == inner[i]);
                }
            }
        }
        assert(all[inner.len() as int] == last);
        assert forall|x: Seq<bool>| #[trigger] all.contains(x) <==> items.contains(x) || x
            == pattern by {
            if all.contains(x) && x != last {
                let k = choose|k: int| 0 <= k < all.len() && all[k] == x;
                assert(inner[k] == x);
                assert(inner.contains(x));
                if x != pattern {
                    let j = choose|j: int| 0 <= j < rest.len() && rest[j] == x;
                    assert(items[j] == x);
                }
            }
            if (items.contains(x) && x != last) || x == pattern {
                if x != pattern {
                    let j = choose|j: int| 0 <= j < items.len() && items[j] == x;
                    assert(rest[j] == x);
                }
                assert(inner.contains(x));
                let k = choose|k: int| 0 <= k < inner.len() && inner[k] == x;
                assert(all[k] == x);
            }
        }
    }
}

proof fn lemma_order_exists(set: Set<Seq<bool>>)
    requires
        set.finite(),
    ensures
        exists|items: Seq<Seq<bool>>| #[trigger] ascending(items) && items.to_set() == set,
    decreases set.len(),
{
    if set.len() == 0 {
        let items = Seq::<Seq<bool>>::empty();
        assert(items.to_set() =~= set);
        assert(ascending(items));
    } else {
        let pattern = set.choose();
        lemma_order_exists(set.remove(pattern));
        let rest = choose|items: Seq<Seq<bool>>| #[trigger]
            ascending(items) && items.to_set() == set.remove(pattern);
        assert(!rest.to_set().contains(pattern));
        lemma_with_pattern(rest, pattern);
        let items = with_pattern(rest, pattern);
        assert forall|x: Seq<bool>| items.to_set().contains(x) <==> set.contains(x) by {
            assert(items.contains(x) <==> rest.contains(x) || x == pattern);
            assert(rest.contains(x) <==> rest.to_set().contains(x));
        }
        assert(items.to_set() =~= set);
        assert(ascending(items));
    }
}

/// The patterns of a finite set in ascending order are those of the set.
pub proof fn lemma_in_order(set: Set<Seq<bool>>)
    requires
        set.finite(),
    ensures
        ascending(in_order(set)),
        in_order(set).to_set() == set,
{
    lemma_order_exists(set);
}

/// A set of patterns, held in ascending order.
pub struct PatternSet {
    items: Vec<Pattern>,
}

/// The views of a sequence of patterns.
pub open spec fn pattern_views(items: Seq<Pattern>) -> Seq<Seq<bool>> {
    items.map_values(|p: Pattern| p@)
}

impl View for PatternSet {
    type V = Set<Seq<bool>>;

    open spec fn view(&self) -> Set<Seq<bool>> {
        self.listed().to_set()
    }
}

/// Some pattern of the set is covered by `flags`.
pub open spec fn supported(set: Set<Seq<bool>>, flags: Seq<bool>) -> bool {
    exists|p: Seq<bool>| #[trigger] set.contains(p) && covered(p, flags)
}

impl PatternSet {
    /// The patterns of the set in ascending order.
    pub closed spec fn listed(&self) -> Seq<Seq<bool>> {
        pattern_views(self.items@)
    }

    /// The patterns are held in ascending order.
    pub open spec fn wf(&self) -> bool {
        ascending(self.listed())
    }

    /// The set is finite, and is listed in ascending order.
    pub proof fn lemma_listed(&self)
        requires
            self.wf(),
        ensures
            self.listed() == in_order(self@),
            self@.finite(),
    {
        assert(ascending(self.listed()) && self.listed().to_set() == self@);
        lemma_ascending_unique(self.listed(), in_order(self@));
    }

    pub fn new() -> (r: PatternSet)
        ensures
            r@ == Set::<Seq<bool>>::empty(),
            r.wf(),
    {
        let r = PatternSet { items: Vec::new() };
        assert(r@ =~= Set::<Seq<bool>>::empty());
        r
    }

    pub fn len(&self) -> (r: usize)
        ensures
            r == self.listed().len(),
    {
        self.items.len()
    }

    pub fn at(&self, index: usize) -> (r: &Pattern)
        requires
            index < self.listed().len(),
        ensures
            r@ == self.listed()[index as int],
            self@.contains(r@),
    {
        assert(self.listed().contains(self.listed()[index as int]));
        &self.items[index]
    }

    /// Adds a pattern.
    pub fn insert(&mut self, pattern: Pattern)
        requires
            old(self).wf(),
        ensures
            final(self)@ == old(self)@.insert(pattern@),
            final(self).wf(),
    {
        let mut at: usize = self.items.len();
        while at > 0 && pattern.before(&self.items[at - 1])
            invariant
                at <= self.items@.len(),
                ascending(self.listed()),
                self.listed() == pattern_views(self.items@),
                forall|k: int|
                    at <= k < self.items@.len() ==> pattern_lt(pattern@, (#[trigger] self.items@[k])@),
            decreases at,
        {
            at -= 1;
        }
        if at > 0 && self.items[at - 1].same(&pattern) {
            assert(self.listed()[at - 1] == pattern@);
            assert(self@.contains(pattern@));
            assert(self@ =~= self@.insert(pattern@));
            return;
        }
        let ghost before = self.items@;
        let ghost inserted = before.insert(at as int, pattern);
        proof {
            let old_list = pattern_views(before);
            let new_list = pattern_views(inserted);
            if at > 0 {
                lemma_pattern_order_total(before[at - 1]@, pattern@);
            }
            assert forall|i: int, j: int| 0 <= i < j < new_list.len() implies pattern_lt(
                #[trigger] new_list[i],
                #[trigger] new_list[j],
            ) by {
                if j == at {
                    assert(new_list[i] == old_list[i]);
                    if i < at - 1 {
                        assert(pattern_lt(old_list[i], old_list[at - 1]));
                        lemma_pattern_order_transitive(old_list[i], old_list[at - 1], pattern@);
                    }
                } else if i == at {
                    assert(new_list[j] == old_list[j - 1]);
                    assert(new_list[j] == before[j - 1]@);
                } else {
                    let i0 = if i < at { i } else { i - 1 };
                    let j0 = if j < at { j } else { j - 1 };
                    assert(new_list[i] == old_list[i0]);
                    assert(new_list[j] == old_list[j0]);
                }
            }
            assert forall|p: Seq<bool>|
                new_list.to_set().contains(p) <==> old_list.to_set().insert(pattern@).contains(p) by {
                if new_list.to_set().contains(p) {
                    let i = choose|i: int| 0 <= i < new_list.len() && new_list[i] == p;
                    if i != at {
                        let i0 = if i < at { i } else { i - 1 };
                        assert(old_list[i0] == p);
                    }
                }
                if old_list.to_set().contains(p) {
                    let i = choose|i: int| 0 <= i < old_list.len() && old_list[i] == p;
                    let i1 = if i < at { i } else { i + 1 };
                    assert(new_list[i1] == p);
                }
                assert(new_list[at as int] == pattern@);
            }
            assert(new_list.to_set() =~= old_list.to_set().insert(pattern@));
        }
        self.items.insert(at, pattern);
        assert(self.items@ =~= inserted);
    }

    /// The patterns of the set that `keep` marks, one mark per pattern in
    /// ascending order.
    pub fn retained(&self, keep: &Vec<bool>) -> (r: PatternSet)
        requires
            self.wf(),
            keep@.len() == self.listed().len(),
        ensures
            r.wf(),
            forall|p: Seq<bool>| #[trigger]
                r@.contains(p) <==> exists|k: int|
                    0 <= k < keep@.len() && keep@[k] && #[trigger] self.listed()[k] == p,
            r@.subset_of(self@),
    {
        let mut out = PatternSet::new();
        let mut i: usize = 0;
        while i < self.items.len()
            invariant
                i <= self.items@.len(),
                out.wf(),
                keep@.len() == self.items@.len(),
                self.listed() == pattern_views(self.items@),
                forall|p: Seq<bool>| #[trigger]
                    out@.contains(p) <==> exists|k: int|
                        0 <= k < i && keep@[k] && #[trigger] self.listed()[k] == p,
            decreases self.items.len() - i,
        {
            assert(self.listed()[i as int] == self.items@[i as int]@);
            if keep[i] {
                out.insert(self.items[i].clone());
            }
            i += 1;
        }
        assert forall|p: Seq<bool>| out@.contains(p) implies self@.contains(p) by {
            let k = choose|k: int|
                0 <= k < i && keep@[k] && #[trigger] self.listed()[k] == p;
            assert(self.listed().contains(p));
        }
        out
    }

    /// Whether some pattern of the set is covered by `flags`.
    pub fn supports(&self, flags: &Pattern) -> (r: bool)
        ensures
            r == supported(self@, flags@),
    {
        let mut i: usize = 0;
        while i < self.items.len()
            invariant
                i <= self.items@.len(),
                forall|k: int|
                    0 <= k < i ==> !covered((#[trigger] self.items@[k])@, flags@),
            decreases self.items.len() - i,
        {
            if self.items[i].subset_of(flags) {
                assert(self.listed()[i as int] == self.items@[i as int]@);
                assert(self@.contains(self.items@[i as int]@));
                return true;
            }
            i += 1;
        }
        assert forall|p: Seq<bool>| #[trigger] self@.contains(p) implies !covered(p, flags@) by {
            let k = choose|k: int| 0 <= k < self.listed().len() && self.listed()[k] == p;
            assert(self.items@[k]@ == p);
        }
        false
    }

    /// Every pattern of an arity.
    pub fn all(arity: usize) -> (r: PatternSet)
        requires
            arity <= 16,
        ensures
            r.wf(),
            forall|p: Seq<bool>| #[trigger] r@.contains(p) <==> p.len() == arity,
    {
        let patterns = Pattern::all(arity);
        let mut out = PatternSet::new();
        let mut i: usize = 0;
        while i < patterns.len()
            invariant
                i <= patterns@.len(),
                out.wf(),
                forall|k: int|
                    0 <= k < patterns@.len() ==> (#[trigger] patterns@[k])@ == mask_pattern(
                        k as nat,
                        arity as nat,
                    ),
                forall|p: Seq<bool>| #[trigger]
                    out@.contains(p) <==> exists|k: int|
                        0 <= k < i && #[trigger] mask_pattern(k as nat, arity as nat) == p,
            decreases patterns.len() - i,
        {
            assert(patterns@[i as int]@ == mask_pattern(i as nat, arity as nat));
            out.insert(patterns[i].clone());
            i += 1;
        }
        assert forall|p: Seq<bool>| #[trigger] out@.contains(p) <==> p.len() == arity by {
            if p.len() == arity {
                lemma_pattern_number(p);
                let k = pattern_number(p) as int;
                assert(mask_pattern(k as nat, arity as nat) == p);
            }
        }
        out
    }
}

} // verus!
