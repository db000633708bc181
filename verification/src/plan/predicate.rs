//! Predicate declarations and their completeness contract.

use crate::plan::mode::{AccessKind, ModeDef, Pattern};
use crate::plan::schema::ArgDef;
use vstd::prelude::*;

verus! {

/// Completeness class of an extern predicate. There is no class for
/// "approximately complete": that is `Disabled` until it is honest.
#[derive(Clone, Copy, Debug, PartialEq, Eq)]
pub enum Completeness {
    /// Complete with respect to the host's semantic model for the declared
    /// scope.
    RaExact,
    /// As complete as the host's name and type resolution; unresolvable sites
    /// are absent, and the named caveats document exactly what is absent.
    RaResolved { caveats: &'static [&'static str] },
    /// The honest implementation does not exist yet; querying it is a
    /// capability error naming the predicate.
    Disabled,
}

/// One extern predicate.
#[derive(Clone, Copy, Debug, PartialEq, Eq)]
pub struct PredicateDef {
    pub name: &'static str,
    pub args: &'static [ArgDef],
    pub doc: &'static str,
    pub completeness: Completeness,
    pub modes: &'static [ModeDef],
}

impl PredicateDef {
    /// Every declared mode spells out each argument position.
    pub open spec fn wf(&self) -> bool {
        forall|i: int|
            0 <= i < self.modes@.len() ==> (#[trigger] self.modes@[i]).pattern@.len()
                == self.args@.len()
    }

    /// Mode `a` is preferred to mode `b`: non-scans first, then the cheaper
    /// cost class, then declaration order.
    pub open spec fn prefers(&self, a: int, b: int) -> bool {
        let x = self.modes@[a];
        let y = self.modes@[b];
        if (x.access is Scan) != (y.access is Scan) {
            y.access is Scan
        } else if x.cost != y.cost {
            x.cost.rank() < y.cost.rank()
        } else {
            a < b
        }
    }

    /// `picks` lists exactly the declared modes satisfied by `bound`, in the
    /// order of preference.
    pub open spec fn is_mode_ranking(&self, bound: Seq<bool>, picks: Seq<int>) -> bool {
        &&& forall|k: int|
            0 <= k < picks.len() ==> 0 <= #[trigger] picks[k] < self.modes@.len()
                && self.modes@[picks[k]].admits(bound)
        &&& forall|m: int|
            0 <= m < self.modes@.len() && (#[trigger] self.modes@[m]).admits(bound)
                ==> picks.contains(m)
        &&& forall|k: int, l: int|
            0 <= k < l < picks.len() ==> self.prefers(#[trigger] picks[k], #[trigger] picks[l])
    }

    pub fn arity(&self) -> (r: usize)
        ensures
            r == self.args@.len(),
    {
        self.args.len()
    }

    pub fn is_disabled(&self) -> (r: bool)
        ensures
            r == (self.completeness is Disabled),
    {
        matches!(self.completeness, Completeness::Disabled)
    }

    /// Whether mode `a` is preferred to mode `b`.
    fn mode_before(&self, a: usize, b: usize) -> (r: bool)
        requires
            a < self.modes@.len(),
            b < self.modes@.len(),
        ensures
            r == self.prefers(a as int, b as int),
    {
        let x = self.modes[a];
        let y = self.modes[b];
        let x_scans = matches!(x.access, AccessKind::Scan);
        let y_scans = matches!(y.access, AccessKind::Scan);
        if x_scans != y_scans {
            y_scans
        } else if x.cost != y.cost {
            x.cost.less_than(y.cost)
        } else {
            a < b
        }
    }

    /// The declared modes whose `+` set is a subset of `bound`, cheapest
    /// first; scans always come last.
    pub fn satisfiable_modes(&self, bound: &Pattern) -> (r: Vec<&'static ModeDef>)
        requires
            bound@.len() == self.args@.len(),
        ensures
            exists|picks: Seq<int>| #[trigger]
                self.is_mode_ranking(bound@, picks) && r@.len() == picks.len() && forall|k: int|
                    0 <= k < r@.len() ==> *#[trigger] r@[k] == self.modes@[picks[k]],
    {
        let mut picks: Vec<usize> = Vec::new();
        let mut m: usize = 0;
        while m < self.modes.len()
            invariant
                m <= self.modes@.len(),
                forall|k: int|
                    0 <= k < picks@.len() ==> #[trigger] picks@[k] < m
                        && self.modes@[picks@[k] as int].admits(bound@),
                forall|j: int|
                    0 <= j < m && (#[trigger] self.modes@[j]).admits(bound@) ==> exists|k: int|
                        0 <= k < picks@.len() && #[trigger] picks@[k] == j,
                forall|k: int, l: int|
                    0 <= k < l < picks@.len() ==> self.prefers(
                        (#[trigger] picks@[k]) as int,
                        (#[trigger] picks@[l]) as int,
                    ),
            decreases self.modes.len() - m,
        {
            if self.modes[m].satisfied_by(bound) {
                let mut at: usize = picks.len();
                while at > 0 && self.mode_before(m, picks[at - 1])
                    invariant
                        m < self.modes@.len(),
                        at <= picks@.len(),
                        forall|k: int| 0 <= k < picks@.len() ==> #[trigger] picks@[k] < m,
                        forall|k: int|
                            at <= k < picks@.len() ==> self.prefers(
                                m as int,
                                (#[trigger] picks@[k]) as int,
                            ),
                    decreases at,
                {
                    at -= 1;
                }
                let ghost before = picks@;
                picks.insert(at, m);
                proof {
                    assert(picks@ =~= before.insert(at as int, m));
                    assert forall|j: int|
                        0 <= j < m + 1 && (#[trigger] self.modes@[j]).admits(
                            bound@,
                        ) implies exists|k: int| 0 <= k < picks@.len() && #[trigger] picks@[k] == j by {
                        if j == m {
                            assert(picks@[at as int] == m);
                        } else {
                            let k = choose|k: int|
                                0 <= k < before.len() && #[trigger] before[k] == j;
                            if k < at {
                                assert(picks@[k] == j);
                            } else {
                                assert(picks@[k + 1] == j);
                            }
                        }
                    }
                    assert forall|k: int, l: int|
                        0 <= k < l < picks@.len() implies self.prefers(
                        (#[trigger] picks@[k]) as int,
                        (#[trigger] picks@[l]) as int,
                    ) by {
                        if k < at && l == at {
                            assert(self.prefers(before[k] as int, m as int)) by {
                                if k == at - 1 {
                                } else {
                                    assert(self.prefers(
                                        before[k] as int,
                                        before[at - 1] as int,
                                    ));
                                }
                            }
                        }
                    }
                }
            }
            m += 1;
        }
        let mut modes: Vec<&'static ModeDef> = Vec::new();
        let mut k: usize = 0;
        while k < picks.len()
            invariant
                k <= picks@.len(),
                modes@.len() == k,
                forall|j: int| 0 <= j < picks@.len() ==> #[trigger] picks@[j] < self.modes@.len(),
                forall|j: int| 0 <= j < k ==> *#[trigger] modes@[j] == self.modes@[picks@[j] as int],
            decreases picks.len() - k,
        {
            modes.push(&self.modes[picks[k]]);
            k += 1;
        }
        proof {
            let ranking = picks@.map_values(|p: usize| p as int);
            assert forall|j: int|
                0 <= j < self.modes@.len() && (#[trigger] self.modes@[j]).admits(
                    bound@,
                ) implies ranking.contains(j) by {
                let k = choose|k: int| 0 <= k < picks@.len() && #[trigger] picks@[k] == j;
                assert(ranking[k] == j);
            }
            assert(self.is_mode_ranking(bound@, ranking));
        }
        modes
    }
}

} // verus!
