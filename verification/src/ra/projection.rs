//! The output boundary: values of a finished run become plain data.
//!
//! The values of a run are scoped to the snapshot that produced them. A value
//! that cannot be projected is written as such, never as a made-up path or id.

use crate::text::{
    cat2, cat3, decimal, decimal_of, lemma_text_irreflexive, lemma_text_ranks, lemma_text_total,
    owned, str_eq, text_before, text_less, texts,
};
use vstd::prelude::*;

verus! {

/// A value of a finished run, with what the snapshot says of the entities in it.
pub enum RunValue {
    /// A definition: the tag of its kind, its path and where it stands.
    Def { kind: String, path: String, location: String },
    /// A range of a file, as it is written if it lies in the workspace.
    FileRange(Option<String>),
    /// A file.
    File,
    /// A place, counted from zero.
    Position { line: u32, col: u32 },
    Text(String),
    Number(i64),
    Bool(bool),
    Enum { name: String, variant: String },
    Absent,
    Present(Box<RunValue>),
    List(Vec<RunValue>),
}

/// A projected value: plain data.
#[derive(Debug, PartialEq, Eq)]
pub enum ProjectedValue {
    Int(i64),
    String(String),
    Bool(bool),
    Enum { name: String, variant: String },
    Absent,
    Present(Box<ProjectedValue>),
    List(Vec<ProjectedValue>),
}

/// What a projected value says.
pub enum ProjectedView {
    Int(i64),
    String(Seq<char>),
    Bool(bool),
    Enum { name: Seq<char>, variant: Seq<char> },
    Absent,
    Present(Box<ProjectedView>),
    List(Seq<ProjectedView>),
}

/// What a projected value says.
pub open spec fn projected_view(value: ProjectedValue) -> ProjectedView
    decreases value, 0nat,
{
    match value {
        ProjectedValue::Int(number) => ProjectedView::Int(number),
        ProjectedValue::String(text) => ProjectedView::String(text@),
        ProjectedValue::Bool(value) => ProjectedView::Bool(value),
        ProjectedValue::Enum { name, variant } => ProjectedView::Enum {
            name: name@,
            variant: variant@,
        },
        ProjectedValue::Absent => ProjectedView::Absent,
        ProjectedValue::Present(inner) => ProjectedView::Present(
            Box::new(projected_view(*inner)),
        ),
        ProjectedValue::List(items) => ProjectedView::List(projected_views(items, items@.len())),
    }
}

/// What the first `count` projected values say.
pub open spec fn projected_views(items: Vec<ProjectedValue>, count: nat) -> Seq<ProjectedView>
    decreases items, count,
{
    if count == 0 || count > items@.len() {
        Seq::empty()
    } else {
        projected_views(items, (count - 1) as nat).push(projected_view(items[count - 1]))
    }
}

/// A definition, as it is written.
pub open spec fn def_text(kind: Seq<char>, path: Seq<char>, location: Seq<char>) -> Seq<char> {
    kind + " "@ + path + " @ "@ + location
}

/// A place, as it is written: counted from one.
pub open spec fn position_text(line: u32, col: u32) -> Seq<char> {
    decimal((line + 1) as nat) + ":"@ + decimal((col + 1) as nat)
}

/// What a value is projected to.
pub open spec fn projected(value: RunValue) -> ProjectedView
    decreases value, 0nat,
{
    match value {
        RunValue::Def { kind, path, location } => ProjectedView::String(
            def_text(kind@, path@, location@),
        ),
        RunValue::FileRange(Some(text)) => ProjectedView::String(text@),
        RunValue::FileRange(None) => ProjectedView::String(
            "<unprojectable:span-outside-workspace>"@,
        ),
        RunValue::File => ProjectedView::String("<unprojectable:raw-file-id>"@),
        RunValue::Position { line, col } => ProjectedView::String(position_text(line, col)),
        RunValue::Text(text) => ProjectedView::String(text@),
        RunValue::Number(number) => ProjectedView::Int(number),
        RunValue::Bool(value) => ProjectedView::Bool(value),
        RunValue::Enum { name, variant } => ProjectedView::Enum { name: name@, variant: variant@ },
        RunValue::Absent => ProjectedView::Absent,
        RunValue::Present(inner) => ProjectedView::Present(Box::new(projected(*inner))),
        RunValue::List(items) => ProjectedView::List(projected_all(items, items@.len())),
    }
}

/// What the first `count` values are projected to.
pub open spec fn projected_all(items: Vec<RunValue>, count: nat) -> Seq<ProjectedView>
    decreases items, count,
{
    if count == 0 || count > items@.len() {
        Seq::empty()
    } else {
        projected_all(items, (count - 1) as nat).push(projected(items[count - 1]))
    }
}

/// One value more at the end.
proof fn lemma_views_push(before: Vec<ProjectedValue>, after: Vec<ProjectedValue>, count: nat)
    requires
        count <= before@.len(),
        before@.len() < after@.len(),
        forall|i: int| 0 <= i < before@.len() ==> #[trigger] before@[i] == after@[i],
    ensures
        projected_views(after, count) == projected_views(before, count),
    decreases count,
{
    if count > 0 {
        lemma_views_push(before, after, (count - 1) as nat);
        assert(before@[count - 1] == after@[count - 1]);
    }
}

/// Projects a value.
pub fn project_value(value: &RunValue) -> (r: ProjectedValue)
    ensures
        projected_view(r) == projected(*value),
    decreases value, 0nat,
{
    match value {
        RunValue::Def { kind, path, location } => {
            let mut out = cat2(kind.as_str(), " ");
            out.append(path.as_str());
            out.append(" @ ");
            out.append(location.as_str());
            ProjectedValue::String(out)
        },
        RunValue::FileRange(Some(text)) => ProjectedValue::String(owned(text.as_str())),
        RunValue::FileRange(None) => ProjectedValue::String(
            owned("<unprojectable:span-outside-workspace>"),
        ),
        RunValue::File => ProjectedValue::String(owned("<unprojectable:raw-file-id>")),
        RunValue::Position { line, col } => {
            let first = decimal_of(*line as u64 + 1);
            let second = decimal_of(*col as u64 + 1);
            ProjectedValue::String(cat3(first.as_str(), ":", second.as_str()))
        },
        RunValue::Text(text) => ProjectedValue::String(owned(text.as_str())),
        RunValue::Number(number) => ProjectedValue::Int(*number),
        RunValue::Bool(value) => ProjectedValue::Bool(*value),
        RunValue::Enum { name, variant } => ProjectedValue::Enum {
            name: owned(name.as_str()),
            variant: owned(variant.as_str()),
        },
        RunValue::Absent => ProjectedValue::Absent,
        RunValue::Present(inner) => ProjectedValue::Present(Box::new(project_value(inner))),
        RunValue::List(items) => ProjectedValue::List(project_row(items)),
    }
}

/// Projects the values of a row.
pub fn project_row(items: &Vec<RunValue>) -> (r: Vec<ProjectedValue>)
    ensures
        r@.len() == items@.len(),
        projected_views(r, r@.len()) == projected_all(*items, items@.len()),
    decreases items, 0nat,
{
    let mut out: Vec<ProjectedValue> = Vec::new();
    let mut i: usize = 0;
    while i < items.len()
        invariant
            i <= items@.len(),
            out@.len() == i,
            projected_views(out, i as nat) == projected_all(*items, i as nat),
        decreases items.len() - i,
    {
        assert(decreases_to!(*items => items[i as int]));
        let value = project_value(&items[i]);
        let ghost before = out;
        out.push(value);
        proof {
            lemma_views_push(before, out, i as nat);
        }
        i += 1;
    }
    out
}

/// What a projected row says.
pub open spec fn row_projection(row: Vec<ProjectedValue>) -> Seq<ProjectedView> {
    projected_views(row, row@.len())
}

/// What a row is projected to.
pub open spec fn projected_row(row: Vec<RunValue>) -> Seq<ProjectedView> {
    projected_all(row, row@.len())
}

/// A relation of a finished run.
pub struct RunRelation {
    pub name: String,
    pub rows: Vec<Vec<RunValue>>,
}

/// A finished run.
pub struct RunResult {
    pub status: String,
    pub notes: Vec<String>,
    pub iterations: usize,
    pub relations: Vec<RunRelation>,
}

/// A projected relation.
#[derive(Debug, PartialEq, Eq)]
pub struct ProjectedRelation {
    pub name: String,
    pub rows: Vec<Vec<ProjectedValue>>,
}

/// A projected run: the projection of every relation, and how the run went.
#[derive(Debug, PartialEq, Eq)]
pub struct ProjectedRunResult {
    pub status: String,
    pub notes: Vec<String>,
    pub iterations: usize,
    /// The relations in the order of their names, each name once.
    pub relations: Vec<ProjectedRelation>,
}

/// The relation is the projection of the run's.
pub open spec fn is_projection(projected_relation: ProjectedRelation, relation: RunRelation) -> bool {
    &&& projected_relation.name@ == relation.name@
    &&& projected_relation.rows@.len() == relation.rows@.len()
    &&& forall|i: int|
        0 <= i < relation.rows@.len() ==> row_projection(
            #[trigger] projected_relation.rows@[i],
        ) == projected_row(relation.rows@[i])
}

/// Projects a relation.
fn project_relation(relation: &RunRelation) -> (r: ProjectedRelation)
    ensures
        is_projection(r, *relation),
{
    let mut rows: Vec<Vec<ProjectedValue>> = Vec::new();
    let mut i: usize = 0;
    while i < relation.rows.len()
        invariant
            i <= relation.rows@.len(),
            rows@.len() == i,
            forall|k: int|
                0 <= k < i ==> row_projection(#[trigger] rows@[k]) == projected_row(
                    relation.rows@[k],
                ),
        decreases relation.rows.len() - i,
    {
        rows.push(project_row(&relation.rows[i]));
        i += 1;
    }
    ProjectedRelation { name: owned(relation.name.as_str()), rows }
}

/// Each relation's name stands before the next one's.
pub open spec fn names_ascend(relations: Seq<ProjectedRelation>) -> bool {
    forall|i: int, j: int|
        #![trigger relations[i], relations[j]]
        0 <= i < j < relations.len() ==> text_before(relations[i].name@, relations[j].name@)
}

/// Relation `k` is the last of its name among the first `count`.
pub open spec fn last_of_name(relations: Seq<RunRelation>, k: int, count: int) -> bool {
    0 <= k < count && forall|m: int|
        k < m < count ==> (#[trigger] relations[m]).name@ != relations[k].name@
}

/// The relation is the projection of the last of its name among the first `count`
/// of the run's.
pub open spec fn projects_last(
    relation: ProjectedRelation,
    relations: Seq<RunRelation>,
    count: int,
) -> bool {
    exists|k: int| #[trigger]
        last_of_name(relations, k, count) && is_projection(relation, relations[k])
}

/// One of the relations has the name.
pub open spec fn has_relation(relations: Seq<ProjectedRelation>, name: Seq<char>) -> bool {
    exists|i: int| 0 <= i < relations.len() && (#[trigger] relations[i]).name@ == name
}

/// Puts a relation at its name, in place of one that is there.
fn put_relation(relations: &mut Vec<ProjectedRelation>, relation: ProjectedRelation)
    requires
        names_ascend(old(relations)@),
    ensures
        names_ascend(final(relations)@),
        forall|i: int|
            0 <= i < final(relations)@.len() ==> (#[trigger] final(relations)@[i]) == relation || (
            final(relations)@[i].name@ != relation.name@ && old(relations)@.contains(
                final(relations)@[i],
            )),
        has_relation(final(relations)@, relation.name@),
        forall|name: Seq<char>|
            has_relation(old(relations)@, name) ==> #[trigger] has_relation(final(relations)@, name),
{
    let ghost held = relations@;
    let ghost shown = relation.name@;
    let mut i: usize = 0;
    while i < relations.len() && text_less(relations[i].name.as_str(), relation.name.as_str())
        invariant
            relations@ == held,
            i <= held.len(),
            shown == relation.name@,
            forall|k: int| 0 <= k < i ==> text_before((#[trigger] held[k]).name@, shown),
        decreases relations.len() - i,
    {
        i += 1;
    }
    let taken = i < relations.len() && str_eq(relations[i].name.as_str(), relation.name.as_str());
    proof {
        assert forall|k: int| 0 <= k < held.len() implies text_before(
            (#[trigger] held[k]).name@,
            shown,
        ) == (k < i) by {
            if k > i {
                lemma_text_ranks(held[i as int].name@, held[k].name@, shown);
                lemma_text_ranks(held[k].name@, shown, held[i as int].name@);
            }
        }
        assert forall|k: int| 0 <= k < held.len() && k > i || k == i && !taken && k < held.len()
            implies text_before(shown, (#[trigger] held[k]).name@) by {
            lemma_text_total(shown, held[k].name@);
            if k > i {
                lemma_text_ranks(held[i as int].name@, held[k].name@, shown);
                lemma_text_total(shown, held[i as int].name@);
            }
        }
        lemma_text_irreflexive(shown);
    }
    if taken {
        relations.set(i, relation);
        assert(relations@ =~= held.update(i as int, relation));
    } else {
        relations.insert(i, relation);
        assert(relations@ =~= held.insert(i as int, relation));
    }
    proof {
        let after = relations@;
        assert(after[i as int] == relation);
        let shift: int = if taken {
            0
        } else {
            1
        };
        assert forall|k: int| 0 <= k < after.len() && k != i implies held.contains(
            #[trigger] after[k],
        ) && after[k].name@ != shown by {
            let from: int = if k < i {
                k
            } else {
                k - shift
            };
            assert(after[k] == held[from]);
        }
        assert forall|name: Seq<char>| has_relation(held, name) implies #[trigger] has_relation(
            after,
            name,
        ) by {
            let k = choose|k: int| 0 <= k < held.len() && (#[trigger] held[k]).name@ == name;
            if k < i {
                assert(after[k] == held[k]);
            } else if k == i && taken {
                assert(after[i as int].name@ == name);
            } else {
                assert(after[k + shift] == held[k]);
            }
        }
        assert forall|a: int, b: int|
            #![trigger after[a], after[b]]
            0 <= a < b < after.len() implies text_before(after[a].name@, after[b].name@) by {
            let x: int = if a <= i {
                a
            } else {
                a - shift
            };
            let y: int = if b <= i {
                b
            } else {
                b - shift
            };
            if a != i {
                assert(after[a] == held[x]);
            }
            if b != i {
                assert(after[b] == held[y]);
            }
        }
    }
}

/// Projects a finished run: each relation under its name, in the order of the
/// names; of relations with one name the last counts.
pub fn project_result(result: RunResult) -> (r: ProjectedRunResult)
    ensures
        r.status@ == result.status@,
        texts(r.notes@) == texts(result.notes@),
        r.iterations == result.iterations,
        names_ascend(r.relations@),
        forall|i: int|
            0 <= i < r.relations@.len() ==> projects_last(
                #[trigger] r.relations@[i],
                result.relations@,
                result.relations@.len() as int,
            ),
        forall|k: int|
            0 <= k < result.relations@.len() ==> has_relation(
                r.relations@,
                (#[trigger] result.relations@[k]).name@,
            ),
{
    let mut relations: Vec<ProjectedRelation> = Vec::new();
    let mut i: usize = 0;
    while i < result.relations.len()
        invariant
            i <= result.relations@.len(),
            names_ascend(relations@),
            forall|k: int|
                0 <= k < relations@.len() ==> projects_last(
                    #[trigger] relations@[k],
                    result.relations@,
                    i as int,
                ),
            forall|k: int|
                0 <= k < i ==> has_relation(relations@, (#[trigger] result.relations@[k]).name@),
        decreases result.relations.len() - i,
    {
        let relation = project_relation(&result.relations[i]);
        let ghost before = relations@;
        let ghost all = result.relations@;
        let ghost shown = relation;
        put_relation(&mut relations, relation);
        proof {
            assert forall|k: int| 0 <= k < relations@.len() implies projects_last(
                #[trigger] relations@[k],
                all,
                i + 1,
            ) by {
                if relations@[k] == shown {
                    assert(last_of_name(all, i as int, i + 1));
                } else {
                    let j = choose|j: int| 0 <= j < before.len() && before[j] == relations@[k];
                    assert(projects_last(before[j], all, i as int));
                    let m = choose|m: int| #[trigger]
                        last_of_name(all, m, i as int) && is_projection(before[j], all[m]);
                    assert(last_of_name(all, m, i + 1));
                }
            }
            assert forall|k: int| 0 <= k < i + 1 implies has_relation(
                relations@,
                (#[trigger] all[k]).name@,
            ) by {
                if k < i {
                    assert(has_relation(before, all[k].name@));
                }
            }
        }
        i += 1;
    }
    ProjectedRunResult {
        status: result.status,
        notes: result.notes,
        iterations: result.iterations,
        relations,
    }
}

} // verus!
