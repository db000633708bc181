//! The call graph of the derived predicates and its components.

use crate::plan::logic::{GoalRef, Program};
use crate::plan::order::{calls, free_count};
use vstd::prelude::*;

verus! {

/// Every goal that calls a derived predicate calls one that exists.
pub open spec fn calls_in_range(program: Program) -> bool {
    forall|p: int, r: int, g: int|
        #![trigger program.derived@[p].rules@[r].body@[g]]
        0 <= p < program.derived@.len() && 0 <= r < program.derived@[p].rules@.len() && 0 <= g
            < program.derived@[p].rules@[r].body@.len() ==> program.has_target(
            program.derived@[p].rules@[r].body@[g].target,
        )
}

/// A rule of derived predicate `p` calls derived predicate `q`.
pub open spec fn depends(program: Program, p: int, q: int) -> bool {
    exists|r: int, g: int|
        0 <= r < program.derived@[p].rules@.len() && 0 <= g
            < program.derived@[p].rules@[r].body@.len() && calls(
            #[trigger] program.derived@[p].rules@[r].body@[g],
            q,
        )
}

/// `path` leads along calls.
pub open spec fn is_call_path(program: Program, path: Seq<int>) -> bool {
    &&& path.len() > 0
    &&& forall|i: int|
        0 <= i < path.len() - 1 ==> depends(program, #[trigger] path[i], path[i + 1])
}

/// Calls lead from `p` to `q`, in any number of steps.
pub open spec fn reaches(program: Program, p: int, q: int) -> bool {
    exists|path: Seq<int>| #[trigger]
        is_call_path(program, path) && path[0] == p && path.last() == q
}

/// Each of `p` and `q` reaches the other.
pub open spec fn mutual(program: Program, p: int, q: int) -> bool {
    reaches(program, p, q) && reaches(program, q, p)
}

pub proof fn lemma_reaches_self(program: Program, p: int)
    ensures
        reaches(program, p, p),
{
    let path = seq![p];
    assert(is_call_path(program, path) && path[0] == p && path.last() == p);
}

pub proof fn lemma_reaches_step(program: Program, p: int, q: int, s: int)
    requires
        reaches(program, p, q),
        depends(program, q, s),
    ensures
        reaches(program, p, s),
{
    let path = choose|path: Seq<int>| #[trigger]
        is_call_path(program, path) && path[0] == p && path.last() == q;
    let longer = path.push(s);
    assert forall|i: int| 0 <= i < longer.len() - 1 implies depends(
        program,
        #[trigger] longer[i],
        longer[i + 1],
    ) by {
        if i < path.len() - 1 {
            assert(depends(program, path[i], path[i + 1]));
        }
    }
    assert(is_call_path(program, longer) && longer[0] == p && longer.last() == s);
}

pub proof fn lemma_reaches_transitive(program: Program, p: int, q: int, s: int)
    requires
        reaches(program, p, q),
        reaches(program, q, s),
    ensures
        reaches(program, p, s),
{
    let path = choose|path: Seq<int>| #[trigger]
        is_call_path(program, path) && path[0] == q && path.last() == s;
    lemma_reaches_along(program, p, path);
}

proof fn lemma_reaches_along(program: Program, p: int, path: Seq<int>)
    requires
        is_call_path(program, path),
        reaches(program, p, path[0]),
    ensures
        reaches(program, p, path.last()),
    decreases path.len(),
{
    if path.len() > 1 {
        let front = path.drop_last();
        assert forall|i: int| 0 <= i < front.len() - 1 implies depends(
            program,
            #[trigger] front[i],
            front[i + 1],
        ) by {
            assert(depends(program, path[i], path[i + 1]));
        }
        lemma_reaches_along(program, p, front);
        assert(depends(program, path[path.len() - 2], path[path.len() - 1]));
        lemma_reaches_step(program, p, front.last(), path.last());
    }
}

/// What is closed under calls holds all that is reached from within.
proof fn lemma_closed_holds_reached(program: Program, marks: Seq<bool>, path: Seq<int>)
    requires
        is_call_path(program, path),
        marks.len() == program.derived@.len(),
        0 <= path[0] < marks.len(),
        marks[path[0]],
        calls_in_range(program),
        forall|u: int, v: int|
            0 <= u < marks.len() && marks[u] && #[trigger] depends(program, u, v) ==> 0 <= v
                < marks.len() && marks[v],
    ensures
        0 <= path.last() < marks.len(),
        marks[path.last()],
    decreases path.len(),
{
    if path.len() > 1 {
        let front = path.drop_last();
        assert forall|i: int| 0 <= i < front.len() - 1 implies depends(
            program,
            #[trigger] front[i],
            front[i + 1],
        ) by {
            assert(depends(program, path[i], path[i + 1]));
        }
        lemma_closed_holds_reached(program, marks, front);
        assert(depends(program, path[path.len() - 2], path[path.len() - 1]));
    }
}

/// The derived predicates that predicate `p` calls.
fn callees(program: &Program, p: usize) -> (r: Vec<usize>)
    requires
        p < program.derived@.len(),
        calls_in_range(*program),
    ensures
        forall|k: int|
            0 <= k < r@.len() ==> depends(*program, p as int, (#[trigger] r@[k]) as int) && r@[k]
                < program.derived@.len(),
        forall|q: int| #[trigger]
            depends(*program, p as int, q) ==> exists|k: int| 0 <= k < r@.len() && r@[k] == q,
{
    let rules = &program.derived[p].rules;
    let mut out: Vec<usize> = Vec::new();
    let mut r: usize = 0;
    while r < rules.len()
        invariant
            r <= rules@.len(),
            p < program.derived@.len(),
            calls_in_range(*program),
            rules@ == program.derived@[p as int].rules@,
            forall|k: int|
                0 <= k < out@.len() ==> depends(*program, p as int, (#[trigger] out@[k]) as int)
                    && out@[k] < program.derived@.len(),
            forall|i: int, g: int, q: int|
                #![trigger calls(rules@[i].body@[g], q)]
                0 <= i < r && 0 <= g < rules@[i].body@.len() && calls(rules@[i].body@[g], q)
                    ==> exists|k: int| 0 <= k < out@.len() && out@[k] == q,
        decreases rules.len() - r,
    {
        let body = &rules[r].body;
        let mut g: usize = 0;
        while g < body.len()
            invariant
                g <= body@.len(),
                r < rules@.len(),
                p < program.derived@.len(),
                calls_in_range(*program),
                rules@ == program.derived@[p as int].rules@,
                body@ == rules@[r as int].body@,
                forall|k: int|
                    0 <= k < out@.len() ==> depends(*program, p as int, (#[trigger] out@[k]) as int)
                        && out@[k] < program.derived@.len(),
                forall|i: int, h: int, q: int|
                    #![trigger calls(rules@[i].body@[h], q)]
                    (0 <= i < r && 0 <= h < rules@[i].body@.len() || i == r && 0 <= h < g) && calls(
                        rules@[i].body@[h],
                        q,
                    ) ==> exists|k: int| 0 <= k < out@.len() && out@[k] == q,
            decreases body.len() - g,
        {
            let ghost before = out@;
            match &body[g].target {
                GoalRef::Derived(id) => {
                    proof {
                        assert(calls(program.derived@[p as int].rules@[r as int].body@[g as int], id.0 as int));
                    }
                    out.push(id.0);
                },
                _ => {},
            }
            proof {
                assert forall|i: int, h: int, q: int|
                    #![trigger calls(rules@[i].body@[h], q)]
                    (0 <= i < r && 0 <= h < rules@[i].body@.len() || i == r && 0 <= h < g + 1)
                        && calls(rules@[i].body@[h], q) implies exists|k: int|
                    0 <= k < out@.len() && out@[k] == q by {
                    if i == r && h == g {
                        assert(out@[before.len() as int] == q);
                    } else {
                        let k = choose|k: int| 0 <= k < before.len() && before[k] == q;
                        assert(out@[k] == q);
                    }
                }
            }
            g += 1;
        }
        r += 1;
    }
    proof {
        assert forall|q: int| #[trigger] depends(*program, p as int, q) implies exists|k: int|
            0 <= k < out@.len() && out@[k] == q by {
            let (i, g) = choose|i: int, g: int|
                0 <= i < program.derived@[p as int].rules@.len() && 0 <= g
                    < program.derived@[p as int].rules@[i].body@.len() && calls(
                    #[trigger] program.derived@[p as int].rules@[i].body@[g],
                    q,
                );
            assert(calls(rules@[i].body@[g], q));
        }
    }
    out
}

/// `marks` marks exactly what `p` reaches.
pub open spec fn marks_reached(program: Program, p: int, marks: Seq<bool>) -> bool {
    &&& marks.len() == program.derived@.len()
    &&& forall|q: int| 0 <= q < marks.len() ==> #[trigger] marks[q] == reaches(program, p, q)
}

/// Marking one more position leaves one fewer free.
pub proof fn lemma_free_count_update(marks: Seq<bool>, i: int)
    requires
        0 <= i < marks.len(),
        !marks[i],
    ensures
        free_count(marks.update(i, true)) == free_count(marks) - 1,
    decreases marks.len(),
{
    let after = marks.update(i, true);
    if i == marks.len() - 1 {
        assert(after.drop_last() =~= marks.drop_last());
    } else {
        assert(after.drop_last() =~= marks.drop_last().update(i, true));
        lemma_free_count_update(marks.drop_last(), i);
    }
}

/// More marks, and strictly more, leave strictly fewer positions free.
proof fn lemma_free_count_strict(a: Seq<bool>, b: Seq<bool>, i: int)
    requires
        a.len() == b.len(),
        forall|k: int| 0 <= k < a.len() && #[trigger] a[k] ==> b[k],
        0 <= i < a.len(),
        !a[i],
        b[i],
    ensures
        free_count(b) < free_count(a),
    decreases a.len(),
{
    if i == a.len() - 1 {
        lemma_free_count_weak(a.drop_last(), b.drop_last());
    } else {
        lemma_free_count_strict(a.drop_last(), b.drop_last(), i);
    }
}

proof fn lemma_free_count_weak(a: Seq<bool>, b: Seq<bool>)
    requires
        a.len() == b.len(),
        forall|k: int| 0 <= k < a.len() && #[trigger] a[k] ==> b[k],
    ensures
        free_count(b) <= free_count(a),
    decreases a.len(),
{
    if a.len() > 0 {
        lemma_free_count_weak(a.drop_last(), b.drop_last());
    }
}

/// Marks what predicate `p` reaches.
fn reachable_from(program: &Program, p: usize) -> (r: Vec<bool>)
    requires
        p < program.derived@.len(),
        calls_in_range(*program),
    ensures
        marks_reached(*program, p as int, r@),
{
    let n: usize = program.derived.len();
    let mut marks: Vec<bool> = Vec::new();
    let mut i: usize = 0;
    while i < n
        invariant
            i <= n,
            marks@.len() == i,
            forall|k: int| 0 <= k < i ==> #[trigger] marks@[k] == (k == p),
        decreases n - i,
    {
        marks.push(i == p);
        i += 1;
    }
    proof {
        lemma_reaches_self(*program, p as int);
    }
    let mut changed = true;
    while changed
        invariant
            p < n,
            n == program.derived@.len(),
            calls_in_range(*program),
            marks@.len() == n,
            marks@[p as int],
            forall|q: int|
                0 <= q < n && #[trigger] marks@[q] ==> reaches(*program, p as int, q),
            !changed ==> forall|u: int, v: int|
                0 <= u < n && marks@[u] && #[trigger] depends(*program, u, v) ==> 0 <= v < n
                    && marks@[v],
        decreases free_count(marks@) + (if changed { 1nat } else { 0nat }),
    {
        let ghost start = marks@;
        changed = false;
        let mut u: usize = 0;
        while u < n
            invariant
                u <= n,
                p < n,
                n == program.derived@.len(),
                calls_in_range(*program),
                marks@.len() == n,
                start.len() == n,
                marks@[p as int],
                forall|q: int|
                    0 <= q < n && #[trigger] marks@[q] ==> reaches(*program, p as int, q),
                !changed ==> marks@ == start,
                changed ==> free_count(marks@) < free_count(start),
                !changed ==> forall|w: int, v: int|
                    0 <= w < u && marks@[w] && #[trigger] depends(*program, w, v) ==> 0 <= v < n
                        && marks@[v],
            decreases n - u,
        {
            if marks[u] {
                let next = callees(program, u);
                let mut k: usize = 0;
                while k < next.len()
                    invariant
                        k <= next@.len(),
                        u < n,
                        p < n,
                        n == program.derived@.len(),
                        calls_in_range(*program),
                        marks@.len() == n,
                        start.len() == n,
                        marks@[p as int],
                        marks@[u as int],
                        forall|q: int|
                            0 <= q < n && #[trigger] marks@[q] ==> reaches(*program, p as int, q),
                        forall|j: int|
                            0 <= j < next@.len() ==> depends(
                                *program,
                                u as int,
                                (#[trigger] next@[j]) as int,
                            ) && next@[j] < n,
                        !changed ==> marks@ == start,
                        changed ==> free_count(marks@) < free_count(start),
                        !changed ==> forall|w: int, v: int|
                            0 <= w < u && marks@[w] && #[trigger] depends(*program, w, v) ==> 0 <= v
                                < n && marks@[v],
                        !changed ==> forall|j: int|
                            0 <= j < k ==> marks@[(#[trigger] next@[j]) as int],
                    decreases next.len() - k,
                {
                    let v: usize = next[k];
                    if !marks[v] {
                        proof {
                            lemma_reaches_step(*program, p as int, u as int, v as int);
                            lemma_free_count_update(marks@, v as int);
                        }
                        marks.set(v, true);
                        changed = true;
                    }
                    k += 1;
                }
                proof {
                    if !changed {
                        assert forall|w: int, v: int|
                            0 <= w < u + 1 && marks@[w] && #[trigger] depends(
                                *program,
                                w,
                                v,
                            ) implies 0 <= v < n && marks@[v] by {
                            if w == u {
                                let j = choose|j: int| 0 <= j < next@.len() && next@[j] == v;
                                assert(marks@[next@[j] as int]);
                            }
                        }
                    }
                }
            }
            u += 1;
        }
    }
    proof {
        assert forall|q: int| 0 <= q < n implies #[trigger] marks@[q] == reaches(
            *program,
            p as int,
            q,
        ) by {
            if reaches(*program, p as int, q) {
                let path = choose|path: Seq<int>| #[trigger]
                    is_call_path(*program, path) && path[0] == p && path.last() == q;
                lemma_closed_holds_reached(*program, marks@, path);
            }
        }
    }
    marks
}

/// `members` lists a component: the predicates that reach `p` and that `p`
/// reaches, in ascending order.
pub open spec fn is_component(program: Program, p: int, members: Seq<usize>) -> bool {
    &&& forall|i: int, j: int| 0 <= i < j < members.len() ==> members[i] < members[j]
    &&& forall|q: int|
        #![trigger mutual(program, p, q)]
        #![trigger holds(members, q)]
        (0 <= q < program.derived@.len() && mutual(program, p, q)) <==> holds(members, q)
}

/// The list holds predicate `p`.
pub open spec fn holds(members: Seq<usize>, p: int) -> bool {
    exists|i: int| 0 <= i < members.len() && members[i] == p
}

/// `sccs` lists the components of the call graph, callees first.
pub open spec fn is_component_order(program: Program, sccs: Seq<Vec<usize>>) -> bool {
    // Every list is a component, represented by any of its members.
    &&& forall|k: int| 0 <= k < sccs.len() ==> (#[trigger] sccs[k])@.len() > 0
    &&& forall|k: int, i: int|
        0 <= k < sccs.len() && 0 <= i < sccs[k]@.len() ==> is_component(
            program,
            (#[trigger] sccs[k]@[i]) as int,
            sccs[k]@,
        )
    // Every predicate is in one list.
    &&& forall|p: int| 0 <= p < program.derived@.len() ==> #[trigger] is_placed(sccs, p)
    &&& forall|k: int, l: int, p: int|
        0 <= k < sccs.len() && 0 <= l < sccs.len() && #[trigger] in_component(sccs, k, p)
            && #[trigger] in_component(sccs, l, p) ==> k == l
    // No predicate calls into a later list.
    &&& forall|k: int, l: int, p: int, q: int|
        0 <= k < sccs.len() && 0 <= l < sccs.len() && #[trigger] in_component(sccs, k, p)
            && #[trigger] in_component(sccs, l, q) && depends(program, p, q) ==> l <= k
}

/// Predicate `p` is in list `k`.
pub open spec fn in_component(sccs: Seq<Vec<usize>>, k: int, p: int) -> bool {
    exists|i: int| 0 <= i < sccs[k]@.len() && #[trigger] sccs[k]@[i] == p
}

/// Predicate `p` is in some list.
pub open spec fn is_placed(sccs: Seq<Vec<usize>>, p: int) -> bool {
    exists|k: int| 0 <= k < sccs.len() && #[trigger] in_component(sccs, k, p)
}

/// What predicate `p` reaches, one mark per predicate.
spec fn reach_row(program: Program, p: int) -> Seq<bool> {
    Seq::new(program.derived@.len(), |q: int| reaches(program, p, q))
}

/// The number of predicates that `p` does not reach.
spec fn weight(program: Program, p: int) -> nat {
    free_count(reach_row(program, p))
}

proof fn lemma_free_count_bound(marks: Seq<bool>)
    ensures
        free_count(marks) <= marks.len(),
    decreases marks.len(),
{
    if marks.len() > 0 {
        lemma_free_count_bound(marks.drop_last());
    }
}

/// What reaches more is listed later; what is reached back is the same
/// component.
proof fn lemma_weight_along_call(program: Program, p: int, q: int)
    requires
        0 <= p < program.derived@.len(),
        0 <= q < program.derived@.len(),
        reaches(program, p, q),
    ensures
        weight(program, p) <= weight(program, q),
        weight(program, p) == weight(program, q) ==> mutual(program, p, q),
{
    let a = reach_row(program, q);
    let b = reach_row(program, p);
    assert forall|k: int| 0 <= k < a.len() && #[trigger] a[k] implies b[k] by {
        lemma_reaches_transitive(program, p, q, k);
    }
    lemma_free_count_weak(a, b);
    if !reaches(program, q, p) {
        lemma_reaches_self(program, p);
        lemma_free_count_strict(a, b, p);
    }
}

/// The number of unmarked positions.
fn count_unmarked(marks: &Vec<bool>) -> (r: usize)
    ensures
        r == free_count(marks@),
{
    let mut free: usize = 0;
    let mut i: usize = 0;
    while i < marks.len()
        invariant
            i <= marks@.len(),
            free <= i,
            free == free_count(marks@.take(i as int)),
        decreases marks.len() - i,
    {
        proof {
            assert(marks@.take(i + 1).drop_last() =~= marks@.take(i as int));
        }
        if !marks[i] {
            free += 1;
        }
        i += 1;
    }
    assert(marks@.take(i as int) =~= marks@);
    free
}

/// The rows hold what each predicate reaches.
spec fn rows_hold(program: Program, rows: Seq<Vec<bool>>) -> bool {
    &&& rows.len() == program.derived@.len()
    &&& forall|p: int| 0 <= p < rows.len() ==> marks_reached(program, p, (#[trigger] rows[p])@)
}

/// The component of predicate `p`.
fn component_of(program: &Program, rows: &Vec<Vec<bool>>, p: usize) -> (r: Vec<usize>)
    requires
        p < program.derived@.len(),
        rows_hold(*program, rows@),
    ensures
        is_component(*program, p as int, r@),
        r@.len() > 0,
{
    let n: usize = program.derived.len();
    let mut members: Vec<usize> = Vec::new();
    let mut q: usize = 0;
    while q < n
        invariant
            q <= n,
            n == program.derived@.len(),
            p < n,
            rows_hold(*program, rows@),
            forall|i: int, j: int| 0 <= i < j < members@.len() ==> members@[i] < members@[j],
            forall|i: int| 0 <= i < members@.len() ==> #[trigger] members@[i] < q,
            forall|k: int|
                #![trigger mutual(*program, p as int, k)]
                #![trigger holds(members@, k)]
                (0 <= k < q && mutual(*program, p as int, k)) <==> holds(members@, k),
        decreases n - q,
    {
        assert(marks_reached(*program, p as int, rows@[p as int]@));
        assert(marks_reached(*program, q as int, rows@[q as int]@));
        let ghost before = members@;
        if rows[p][q] && rows[q][p] {
            members.push(q);
            proof {
                assert forall|k: int|
                    (0 <= k < q + 1 && #[trigger] mutual(*program, p as int, k)) implies holds(
                    members@,
                    k,
                ) by {
                    if k == q {
                        assert(members@[before.len() as int] == k);
                    } else {
                        assert(holds(before, k));
                        let i = choose|i: int| 0 <= i < before.len() && before[i] == k;
                        assert(members@[i] == k);
                    }
                }
                assert forall|k: int| #[trigger] holds(members@, k) implies 0 <= k < q + 1 && mutual(
                    *program,
                    p as int,
                    k,
                ) by {
                    let i = choose|i: int| 0 <= i < members@.len() && members@[i] == k;
                    if i < before.len() {
                        assert(before[i] == k);
                        assert(holds(before, k));
                    }
                }
            }
        }
        q += 1;
    }
    proof {
        lemma_reaches_self(*program, p as int);
        assert(mutual(*program, p as int, p as int));
    }
    members
}

/// The members of a component all represent it.
proof fn lemma_component_members(program: Program, p: int, members: Seq<usize>)
    requires
        0 <= p < program.derived@.len(),
        is_component(program, p, members),
    ensures
        forall|i: int|
            0 <= i < members.len() ==> is_component(
                program,
                (#[trigger] members[i]) as int,
                members,
            ) && weight(program, members[i] as int) == weight(program, p) && members[i]
                < program.derived@.len(),
{
    assert forall|i: int| 0 <= i < members.len() implies is_component(
        program,
        (#[trigger] members[i]) as int,
        members,
    ) && weight(program, members[i] as int) == weight(program, p) && members[i]
        < program.derived@.len() by {
        let m = members[i] as int;
        assert(holds(members, m));
        assert(0 <= m < program.derived@.len() && mutual(program, p, m));
        lemma_weight_along_call(program, p, m);
        lemma_weight_along_call(program, m, p);
        assert forall|q: int|
            #![trigger mutual(program, m, q)]
            #![trigger holds(members, q)]
            (0 <= q < program.derived@.len() && mutual(program, m, q)) <==> holds(members, q) by {
            if mutual(program, m, q) {
                lemma_reaches_transitive(program, p, m, q);
                lemma_reaches_transitive(program, q, m, p);
            }
            if mutual(program, p, q) {
                lemma_reaches_transitive(program, m, p, q);
                lemma_reaches_transitive(program, q, p, m);
            }
        }
    }
}

/// What holds of the lists while they are built.
spec fn partial_order(program: Program, sccs: Seq<Vec<usize>>, floor: int) -> bool {
    &&& forall|k: int, i: int|
        0 <= k < sccs.len() && 0 <= i < sccs[k]@.len() ==> is_component(
            program,
            (#[trigger] sccs[k]@[i]) as int,
            sccs[k]@,
        ) && sccs[k]@[i] < program.derived@.len() && weight(program, sccs[k]@[i] as int) >= floor
    &&& forall|k: int| 0 <= k < sccs.len() ==> (#[trigger] sccs[k])@.len() > 0
    &&& forall|k: int, l: int, p: int|
        0 <= k < sccs.len() && 0 <= l < sccs.len() && #[trigger] in_component(sccs, k, p)
            && #[trigger] in_component(sccs, l, p) ==> k == l
    &&& forall|k: int, l: int, p: int, q: int|
        0 <= k <= l < sccs.len() && #[trigger] in_component(sccs, k, p) && #[trigger] in_component(
            sccs,
            l,
            q,
        ) ==> weight(program, p) >= weight(program, q)
}

/// Adding the component of a predicate that is in no list yet.
proof fn lemma_add_component(
    program: Program,
    sccs: Seq<Vec<usize>>,
    floor: int,
    p: int,
    members: Vec<usize>,
)
    requires
        partial_order(program, sccs, floor),
        0 <= p < program.derived@.len(),
        weight(program, p) == floor,
        is_component(program, p, members@),
        members@.len() > 0,
        !is_placed(sccs, p),
    ensures
        partial_order(program, sccs.push(members), floor),
        forall|q: int|
            is_placed(sccs.push(members), q) <==> is_placed(sccs, q) || holds(members@, q),
        is_placed(sccs.push(members), p),
{
    let after = sccs.push(members);
    let last = sccs.len() as int;
    lemma_component_members(program, p, members@);
    assert(after[last] == members);
    assert forall|k: int, q: int| 0 <= k < last implies #[trigger] in_component(after, k, q)
        == in_component(sccs, k, q) by {
        assert(after[k] == sccs[k]);
    }
    assert forall|k: int, i: int| 0 <= k < after.len() && 0 <= i < after[k]@.len() implies is_component(
        program,
        (#[trigger] after[k]@[i]) as int,
        after[k]@,
    ) && after[k]@[i] < program.derived@.len() && weight(program, after[k]@[i] as int) >= floor by {
        if k < last {
            assert(after[k]@[i] == sccs[k]@[i]);
        }
    }
    assert forall|k: int, q: int|
        0 <= k < last && #[trigger] in_component(after, k, q) implies !in_component(
        after,
        last,
        q,
    ) by {
        if in_component(after, last, q) {
            let i = choose|i: int| 0 <= i < after[last]@.len() && #[trigger] after[last]@[i] == q;
            assert(holds(members@, q));
            assert(mutual(program, p, q));
            let j = choose|j: int| 0 <= j < sccs[k]@.len() && #[trigger] sccs[k]@[j] == q;
            assert(is_component(program, q, sccs[k]@));
            assert(mutual(program, q, p));
            assert(holds(sccs[k]@, p));
            let m = choose|m: int| 0 <= m < sccs[k]@.len() && sccs[k]@[m] == p;
            assert(sccs[k]@[m] == p);
            assert(in_component(sccs, k, p));
        }
    }
    assert forall|k: int, l: int, a: int, b: int|
        0 <= k <= l < after.len() && #[trigger] in_component(after, k, a)
            && #[trigger] in_component(after, l, b) implies weight(program, a) >= weight(
        program,
        b,
    ) by {
        if l == last {
            let i = choose|i: int| 0 <= i < after[last]@.len() && #[trigger] after[last]@[i] == b;
            assert(weight(program, members@[i] as int) == floor);
            let j = choose|j: int| 0 <= j < after[k]@.len() && #[trigger] after[k]@[j] == a;
            assert(weight(program, after[k]@[j] as int) >= floor);
        } else {
            assert(in_component(sccs, k, a) && in_component(sccs, l, b));
        }
    }
    assert forall|q: int|
        is_placed(after, q) <==> is_placed(sccs, q) || holds(members@, q) by {
        if is_placed(after, q) {
            let k = choose|k: int| 0 <= k < after.len() && #[trigger] in_component(after, k, q);
            if k < last {
                assert(in_component(sccs, k, q));
            } else {
                let i = choose|i: int| 0 <= i < after[k]@.len() && #[trigger] after[k]@[i] == q;
                assert(members@[i] == q);
            }
        }
        if is_placed(sccs, q) {
            let k = choose|k: int| 0 <= k < sccs.len() && #[trigger] in_component(sccs, k, q);
            assert(in_component(after, k, q));
        }
        if holds(members@, q) {
            let i = choose|i: int| 0 <= i < members@.len() && members@[i] == q;
            assert(after[last]@[i] == q);
            assert(in_component(after, last, q));
        }
    }
    lemma_reaches_self(program, p);
    assert(mutual(program, p, p));
}

/// The components of the derived predicates, callees first: each component
/// comes after every component it calls into.
pub fn derived_sccs(program: &Program) -> (r: Vec<Vec<usize>>)
    requires
        calls_in_range(*program),
    ensures
        is_component_order(*program, r@),
{
    let n: usize = program.derived.len();
    let mut rows: Vec<Vec<bool>> = Vec::new();
    let mut weights: Vec<usize> = Vec::new();
    let mut p: usize = 0;
    while p < n
        invariant
            p <= n,
            n == program.derived@.len(),
            calls_in_range(*program),
            rows@.len() == p,
            weights@.len() == p,
            forall|q: int| 0 <= q < p ==> marks_reached(*program, q, (#[trigger] rows@[q])@),
            forall|q: int|
                0 <= q < p ==> #[trigger] weights@[q] == weight(*program, q) && weights@[q] <= n,
        decreases n - p,
    {
        let row = reachable_from(program, p);
        assert(row@ =~= reach_row(*program, p as int));
        proof {
            lemma_free_count_bound(row@);
        }
        weights.push(count_unmarked(&row));
        rows.push(row);
        p += 1;
    }
    let mut placed: Vec<bool> = Vec::new();
    let mut i: usize = 0;
    while i < n
        invariant
            i <= n,
            placed@.len() == i,
            forall|q: int| 0 <= q < i ==> !#[trigger] placed@[q],
        decreases n - i,
    {
        placed.push(false);
        i += 1;
    }
    let mut sccs: Vec<Vec<usize>> = Vec::new();
    let mut level: usize = n;
    // Whoever reaches least comes first.
    loop
        invariant
            level <= n,
            n == program.derived@.len(),
            rows_hold(*program, rows@),
            weights@.len() == n,
            placed@.len() == n,
            forall|q: int| 0 <= q < n ==> #[trigger] weights@[q] == weight(*program, q),
            forall|q: int| 0 <= q < n ==> #[trigger] placed@[q] == is_placed(sccs@, q),
            forall|q: int| 0 <= q < n && #[trigger] weights@[q] > level ==> placed@[q],
            partial_order(*program, sccs@, level as int),
        ensures
            forall|q: int| 0 <= q < n ==> #[trigger] placed@[q],
            forall|q: int| 0 <= q < n ==> #[trigger] placed@[q] == is_placed(sccs@, q),
            partial_order(*program, sccs@, 0),
        decreases level,
    {
        let mut p: usize = 0;
        while p < n
            invariant
                p <= n,
                level <= n,
                n == program.derived@.len(),
                rows_hold(*program, rows@),
                weights@.len() == n,
                placed@.len() == n,
                forall|q: int| 0 <= q < n ==> #[trigger] weights@[q] == weight(*program, q),
                forall|q: int| 0 <= q < n ==> #[trigger] placed@[q] == is_placed(sccs@, q),
                forall|q: int| 0 <= q < n && #[trigger] weights@[q] > level ==> placed@[q],
                forall|q: int| 0 <= q < p && #[trigger] weights@[q] >= level ==> placed@[q],
                partial_order(*program, sccs@, level as int),
            decreases n - p,
        {
            if weights[p] == level && !placed[p] {
                let members = component_of(program, &rows, p);
                let ghost before = sccs@;
                let ghost marks = placed@;
                proof {
                    lemma_add_component(*program, before, level as int, p as int, members);
                    lemma_component_members(*program, p as int, members@);
                }
                let mut k: usize = 0;
                while k < members.len()
                    invariant
                        k <= members@.len(),
                        placed@.len() == n,
                        marks.len() == n,
                        n == program.derived@.len(),
                        forall|j: int| 0 <= j < members@.len() ==> #[trigger] members@[j] < n,
                        forall|q: int|
                            0 <= q < n ==> #[trigger] placed@[q] == (marks[q] || exists|j: int|
                                0 <= j < k && members@[j] == q),
                    decreases members.len() - k,
                {
                    let m: usize = members[k];
                    let ghost earlier = placed@;
                    placed.set(m, true);
                    proof {
                        assert forall|q: int| 0 <= q < n implies #[trigger] placed@[q] == (marks[q]
                            || exists|j: int| 0 <= j < k + 1 && members@[j] == q) by {
                            if q == m {
                                assert(members@[k as int] == q);
                            } else {
                                assert(placed@[q] == earlier[q]);
                            }
                        }
                    }
                    k += 1;
                }
                sccs.push(members);
                assert(sccs@ == before.push(members));
            }
            p += 1;
        }
        if level == 0 {
            assert forall|q: int| 0 <= q < n implies #[trigger] placed@[q] by {
                assert(weights@[q] >= level);
            }
            break ;
        }
        level -= 1;
    }
    proof {
        assert forall|k: int, l: int, a: int, b: int|
            0 <= k < sccs@.len() && 0 <= l < sccs@.len() && #[trigger] in_component(sccs@, k, a)
                && #[trigger] in_component(sccs@, l, b) && depends(*program, a, b) implies l
            <= k by {
            if l > k {
                lemma_reaches_self(*program, a);
                lemma_reaches_step(*program, a, a, b);
                let i = choose|i: int| 0 <= i < sccs@[k]@.len() && #[trigger] sccs@[k]@[i] == a;
                let j = choose|j: int| 0 <= j < sccs@[l]@.len() && #[trigger] sccs@[l]@[j] == b;
                lemma_weight_along_call(*program, a, b);
                assert(weight(*program, a) >= weight(*program, b));
                assert(is_component(*program, a, sccs@[k]@));
                assert(mutual(*program, a, b));
                assert(holds(sccs@[k]@, b));
                let m = choose|m: int| 0 <= m < sccs@[k]@.len() && sccs@[k]@[m] == b;
                assert(sccs@[k]@[m] == b);
                assert(in_component(sccs@, k, b));
            }
        }
        assert forall|q: int| 0 <= q < program.derived@.len() implies #[trigger] is_placed(
            sccs@,
            q,
        ) by {
            assert(placed@[q]);
        }
    }
    sccs
}

} // verus!
