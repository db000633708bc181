//! Which source roots and files a snapshot is made from.

use crate::ra::init_error::RaHostInitError;
use crate::ra::store::IdMap;
use crate::sorting::{law_sorting_orders, ordered, sort_ranked, sorted, views, Ranked};
use crate::text::{lemma_text_ranks, lemma_text_total, owned, str_eq, text_before, text_less};
use vstd::prelude::*;

verus! {

/// How many files of libraries a snapshot has at most.
pub const MAX_LIBRARY_FILES: usize = 25_000;

/// How many files of one library root a snapshot has at most.
pub const MAX_LIBRARY_FILES_PER_ROOT: usize = 5_000;

/// A file that a snapshot may have.
#[derive(Debug, Clone)]
pub struct FileCandidate {
    pub file_id: u32,
    pub source_root: u64,
    pub is_library: bool,
    pub abs_path: String,
}

/// What a candidate says.
pub struct CandidateView {
    pub file_id: u32,
    pub source_root: u64,
    pub is_library: bool,
    pub abs_path: Seq<char>,
}

impl View for FileCandidate {
    type V = CandidateView;

    open spec fn view(&self) -> CandidateView {
        CandidateView {
            file_id: self.file_id,
            source_root: self.source_root,
            is_library: self.is_library,
            abs_path: self.abs_path@,
        }
    }
}

/// What candidates say.
pub open spec fn candidate_views(items: Seq<FileCandidate>) -> Seq<CandidateView> {
    items.map_values(|item: FileCandidate| item@)
}

/// One candidate comes before another: by path, then files of the workspace
/// before those of libraries, then by root.
pub open spec fn candidate_before(a: CandidateView, b: CandidateView) -> bool {
    text_before(a.abs_path, b.abs_path) || (a.abs_path == b.abs_path && ((!a.is_library
        && b.is_library) || (a.is_library == b.is_library && a.source_root < b.source_root)))
}

impl Ranked for FileCandidate {
    open spec fn before(a: CandidateView, b: CandidateView) -> bool {
        candidate_before(a, b)
    }

    proof fn lemma_order(a: CandidateView, b: CandidateView, c: CandidateView) {
        lemma_text_ranks(a.abs_path, b.abs_path, c.abs_path);
        lemma_text_ranks(b.abs_path, c.abs_path, a.abs_path);
        lemma_text_total(a.abs_path, c.abs_path);
        lemma_text_total(c.abs_path, b.abs_path);
    }

    fn is_before(&self, other: &FileCandidate) -> (r: bool) {
        candidate_less(self, other)
    }

    fn twin(&self) -> (r: FileCandidate) {
        FileCandidate {
            file_id: self.file_id,
            source_root: self.source_root,
            is_library: self.is_library,
            abs_path: owned(self.abs_path.as_str()),
        }
    }
}

/// The first `count` candidates in order.
pub open spec fn sorted_candidates(items: Seq<CandidateView>, count: nat) -> Seq<CandidateView> {
    sorted::<FileCandidate>(items, count)
}

/// How many of the files are of libraries.
pub open spec fn library_count(files: Seq<CandidateView>) -> nat
    decreases files.len(),
{
    if files.len() == 0 {
        0
    } else {
        library_count(files.drop_last()) + if files.last().is_library {
            1nat
        } else {
            0nat
        }
    }
}

/// How many of the files are of the library root.
pub open spec fn root_count(files: Seq<CandidateView>, root: u64) -> nat
    decreases files.len(),
{
    if files.len() == 0 {
        0
    } else {
        root_count(files.drop_last(), root) + if files.last().is_library
            && files.last().source_root == root {
            1nat
        } else {
            0nat
        }
    }
}

/// The chosen files have room for the candidate.
pub open spec fn has_room(chosen: Seq<CandidateView>, item: CandidateView) -> bool {
    !item.is_library || (library_count(chosen) < MAX_LIBRARY_FILES && root_count(
        chosen,
        item.source_root,
    ) < MAX_LIBRARY_FILES_PER_ROOT)
}

/// The files chosen among the first `count` candidates.
pub open spec fn chosen_files(items: Seq<CandidateView>, count: nat) -> Seq<CandidateView>
    decreases count,
{
    if count == 0 {
        Seq::empty()
    } else {
        let chosen = chosen_files(items, (count - 1) as nat);
        if has_room(chosen, items[count - 1]) {
            chosen.push(items[count - 1])
        } else {
            chosen
        }
    }
}

/// Whether one candidate comes before another.
fn candidate_less(a: &FileCandidate, b: &FileCandidate) -> (r: bool)
    ensures
        r == candidate_before(a@, b@),
{
    if text_less(a.abs_path.as_str(), b.abs_path.as_str()) {
        return true;
    }
    if !str_eq(a.abs_path.as_str(), b.abs_path.as_str()) {
        return false;
    }
    (!a.is_library && b.is_library) || (a.is_library == b.is_library && a.source_root
        < b.source_root)
}

/// The candidates in order.
fn sort_candidates(items: &Vec<FileCandidate>) -> (r: Vec<FileCandidate>)
    ensures
        candidate_views(r@) == sorted_candidates(candidate_views(items@), items@.len()),
{
    let out = sort_ranked(items);
    assert(candidate_views(items@) =~= views(items@));
    assert(candidate_views(out@) =~= views(out@));
    out
}

/// One file more.
proof fn lemma_counts_push(files: Seq<CandidateView>, item: CandidateView)
    ensures
        library_count(files.push(item)) == library_count(files) + if item.is_library {
            1nat
        } else {
            0nat
        },
        forall|root: u64| #[trigger]
            root_count(files.push(item), root) == root_count(files, root) + if item.is_library
                && item.source_root == root {
                1nat
            } else {
                0nat
            },
{
    assert(files.push(item).drop_last() =~= files);
}

/// No candidate comes before one in front of it.
pub open spec fn candidates_ordered(items: Seq<CandidateView>) -> bool {
    ordered::<FileCandidate>(items)
}

/// Sorting candidates puts them in order and changes none.
pub proof fn law_candidates_are_sorted(items: Seq<CandidateView>, count: nat)
    requires
        count <= items.len(),
    ensures
        candidates_ordered(sorted_candidates(items, count)),
        sorted_candidates(items, count).to_multiset() == items.take(count as int).to_multiset(),
{
    law_sorting_orders::<FileCandidate>(items, count);
}

/// The files that a snapshot is made from: all files of the workspace, and of
/// libraries as many as there is room for. An error where there is none.
pub fn collect_local_files(candidates: &Vec<FileCandidate>) -> (r: Result<
    Vec<FileCandidate>,
    RaHostInitError,
>)
    ensures
        match r {
            Ok(files) => candidates@.len() > 0 && candidate_views(files@) == chosen_files(
                sorted_candidates(candidate_views(candidates@), candidates@.len()),
                candidates@.len(),
            ) && files@.len() > 0,
            Err(error) => chosen_files(
                sorted_candidates(candidate_views(candidates@), candidates@.len()),
                candidates@.len(),
            ).len() == 0 && match error {
                RaHostInitError::SemanticBuild { details } => details@
                    == "workspace snapshot has no source files"@,
                _ => false,
            },
        },
{
    let sorted = sort_candidates(candidates);
    let ghost all = candidate_views(sorted@);
    proof {
        law_sorting_orders::<FileCandidate>(candidate_views(candidates@), candidates@.len());
    }
    let mut chosen: Vec<FileCandidate> = Vec::new();
    let mut libraries: usize = 0;
    let mut per_root: IdMap<usize> = IdMap::new();
    let mut i: usize = 0;
    assert(candidate_views(chosen@) =~= Seq::<CandidateView>::empty());
    while i < sorted.len()
        invariant
            all == candidate_views(sorted@),
            i <= sorted@.len(),
            per_root.wf(),
            candidate_views(chosen@) == chosen_files(all, i as nat),
            libraries == library_count(chosen_files(all, i as nat)),
            libraries <= MAX_LIBRARY_FILES,
            forall|root: u64|
                (if #[trigger] per_root@.contains_key(root) {
                    per_root@[root] as nat
                } else {
                    0nat
                }) == root_count(chosen_files(all, i as nat), root),
            forall|root: u64| #[trigger]
                per_root@.contains_key(root) ==> per_root@[root] <= MAX_LIBRARY_FILES_PER_ROOT,
        decreases sorted.len() - i,
    {
        let item = &sorted[i];
        let ghost before = chosen_files(all, i as nat);
        proof {
            assert(all[i as int] == item@);
            lemma_counts_push(before, item@);
            assert(per_root@.contains_key(item.source_root) || !per_root@.contains_key(
                item.source_root,
            ));
        }
        let held: usize = match per_root.get(item.source_root) {
            Some(count) => *count,
            None => 0,
        };
        let room = !item.is_library || (libraries < MAX_LIBRARY_FILES && held
            < MAX_LIBRARY_FILES_PER_ROOT);
        if room {
            if item.is_library {
                libraries += 1;
                let ghost counts = per_root@;
                per_root.insert(item.source_root, held + 1);
                proof {
                    assert forall|root: u64|
                        (if #[trigger] per_root@.contains_key(root) {
                            per_root@[root] as nat
                        } else {
                            0nat
                        }) == root_count(before.push(item@), root) by {
                        assert(counts.contains_key(root) || !counts.contains_key(root));
                    }
                }
            } else {
                proof {
                    assert forall|root: u64|
                        (if #[trigger] per_root@.contains_key(root) {
                            per_root@[root] as nat
                        } else {
                            0nat
                        }) == root_count(before.push(item@), root) by {}
                }
            }
            chosen.push(
                FileCandidate {
                    file_id: item.file_id,
                    source_root: item.source_root,
                    is_library: item.is_library,
                    abs_path: owned(item.abs_path.as_str()),
                },
            );
            assert(candidate_views(chosen@) =~= before.push(item@));
        }
        i += 1;
    }
    if chosen.len() == 0 {
        return Err(
            RaHostInitError::SemanticBuild {
                details: owned("workspace snapshot has no source files"),
            },
        );
    }
    proof {
        assert(candidate_views(chosen@).len() == chosen@.len());
        if candidates@.len() == 0 {
            assert(chosen_files(all, 0).len() == 0);
        }
    }
    Ok(chosen)
}

/// A snapshot never has more files of libraries, in all or of one root, than
/// there is room for, and leaves out no file of the workspace.
pub proof fn law_snapshots_are_bounded(items: Seq<CandidateView>, count: nat)
    requires
        count <= items.len(),
    ensures
        library_count(chosen_files(items, count)) <= MAX_LIBRARY_FILES,
        forall|root: u64| #[trigger]
            root_count(chosen_files(items, count), root) <= MAX_LIBRARY_FILES_PER_ROOT,
        forall|i: int|
            0 <= i < count && !(#[trigger] items[i]).is_library ==> chosen_files(
                items,
                count,
            ).contains(items[i]),
    decreases count,
{
    if count > 0 {
        law_snapshots_are_bounded(items, (count - 1) as nat);
        let chosen = chosen_files(items, (count - 1) as nat);
        let after = chosen_files(items, count);
        lemma_counts_push(chosen, items[count - 1]);
        assert forall|i: int| 0 <= i < count && !(#[trigger] items[i]).is_library implies
            after.contains(items[i]) by {
            if i < count - 1 {
                assert(chosen.contains(items[i]));
                let k = choose|k: int| 0 <= k < chosen.len() && chosen[k] == items[i];
                assert(after[k] == items[i]);
            } else {
                assert(after[chosen.len() as int] == items[i]);
            }
        }
    }
}

/// A crate of the crate graph.
pub struct CrateNode {
    pub is_local: bool,
    pub in_workspace: bool,
    pub is_lang: bool,
    /// The crates it depends on, by their place in the graph.
    pub deps: Vec<usize>,
    pub source_root: u64,
}

/// The crate is one of the workspace's own.
pub open spec fn is_own(node: CrateNode) -> bool {
    node.is_local || node.in_workspace
}

/// The crate is one of the workspace's own, or one of those depends on it within
/// so many steps, crates of the language left out.
pub open spec fn reached(graph: Seq<CrateNode>, i: int, steps: nat) -> bool
    decreases steps,
{
    0 <= i < graph.len() && (is_own(graph[i]) || (steps > 0 && !graph[i].is_lang && exists|
        j: int,
        k: int,
    |
        #[trigger] depends(graph, j, k, i) && reached(graph, j, (steps - 1) as nat)))
}

/// Dependency `k` of crate `j` is crate `i`.
pub open spec fn depends(graph: Seq<CrateNode>, j: int, k: int, i: int) -> bool {
    0 <= j < graph.len() && 0 <= k < graph[j].deps@.len() && graph[j].deps@[k] == i
}

/// The crate is one of the workspace's own, or one of those depends on it.
pub open spec fn is_reached(graph: Seq<CrateNode>, i: int) -> bool {
    exists|steps: nat| #[trigger] reached(graph, i, steps)
}

/// Some crate is one of the workspace's own.
pub open spec fn has_own(graph: Seq<CrateNode>) -> bool {
    exists|i: int| 0 <= i < graph.len() && is_own(#[trigger] graph[i])
}

/// The crate's sources belong in a snapshot: those that are reached, or all but
/// the language's where the workspace has no crate of its own.
pub open spec fn is_selected(graph: Seq<CrateNode>, i: int) -> bool {
    0 <= i < graph.len() && if has_own(graph) {
        is_reached(graph, i)
    } else {
        !graph[i].is_lang
    }
}

/// The dependencies are crates of the graph.
pub open spec fn graph_wf(graph: Seq<CrateNode>) -> bool {
    forall|j: int, k: int|
        0 <= j < graph.len() && 0 <= k < graph[j].deps@.len() ==> (
        #[trigger] graph[j].deps@[k]) < graph.len()
}

/// What is closed under dependencies holds all that is reached.
proof fn lemma_closed(graph: Seq<CrateNode>, marks: Seq<bool>, i: int, steps: nat)
    requires
        marks.len() == graph.len(),
        forall|c: int| 0 <= c < graph.len() && is_own(#[trigger] graph[c]) ==> marks[c],
        forall|j: int, k: int, c: int|
            #[trigger] depends(graph, j, k, c) && 0 <= c < graph.len() && marks[j]
                && !graph[c].is_lang ==> marks[c],
        reached(graph, i, steps),
    ensures
        marks[i],
    decreases steps,
{
    if !is_own(graph[i]) {
        let (j, k) = choose|j: int, k: int|
            #[trigger] depends(graph, j, k, i) && reached(graph, j, (steps - 1) as nat);
        lemma_closed(graph, marks, j, (steps - 1) as nat);
    }
}

/// How many marks are not set.
spec fn unset(marks: Seq<bool>) -> nat
    decreases marks.len(),
{
    if marks.len() == 0 {
        0
    } else {
        unset(marks.drop_last()) + if marks.last() {
            0nat
        } else {
            1nat
        }
    }
}

proof fn lemma_unset_update(marks: Seq<bool>, i: int)
    requires
        0 <= i < marks.len(),
        !marks[i],
    ensures
        unset(marks.update(i, true)) + 1 == unset(marks),
    decreases marks.len(),
{
    let after = marks.update(i, true);
    if i == marks.len() - 1 {
        assert(after.drop_last() =~= marks.drop_last());
    } else {
        assert(after.drop_last() =~= marks.drop_last().update(i, true));
        lemma_unset_update(marks.drop_last(), i);
    }
}

/// Marks what the marked crates depend on, once through the graph. Tells whether
/// a mark was set.
fn mark_dependencies(graph: &Vec<CrateNode>, marks: &mut Vec<bool>) -> (r: bool)
    requires
        graph_wf(graph@),
        old(marks)@.len() == graph@.len(),
        forall|c: int| 0 <= c < graph@.len() && #[trigger] old(marks)@[c] ==> is_reached(graph@, c),
    ensures
        final(marks)@.len() == graph@.len(),
        forall|c: int|
            0 <= c < graph@.len() && #[trigger] final(marks)@[c] ==> is_reached(graph@, c),
        forall|c: int|
            0 <= c < graph@.len() && #[trigger] old(marks)@[c] ==> final(marks)@[c],
        r ==> unset(final(marks)@) < unset(old(marks)@),
        !r ==> final(marks)@ == old(marks)@ && forall|j: int, k: int, c: int|
            #[trigger] depends(graph@, j, k, c) && 0 <= c < graph@.len() && final(marks)@[j]
                && !graph@[c].is_lang ==> final(marks)@[c],
{
    let ghost before = marks@;
    let mut changed = false;
    let mut j: usize = 0;
    while j < graph.len()
        invariant
            graph_wf(graph@),
            before == old(marks)@,
            j <= graph@.len(),
            marks@.len() == graph@.len(),
            forall|c: int| 0 <= c < graph@.len() && #[trigger] marks@[c] ==> is_reached(graph@, c),
            forall|c: int| 0 <= c < graph@.len() && #[trigger] before[c] ==> marks@[c],
            changed ==> unset(marks@) < unset(before),
            !changed ==> marks@ == before,
            !changed ==> forall|a: int, k: int, c: int|
                #[trigger] depends(graph@, a, k, c) && a < j && 0 <= c < graph@.len() && marks@[a]
                    && !graph@[c].is_lang ==> marks@[c],
        decreases graph.len() - j,
    {
        if marks[j] {
            let mut k: usize = 0;
            while k < graph[j as usize].deps.len()
                invariant
                    graph_wf(graph@),
                    before == old(marks)@,
                    j < graph@.len(),
                    k <= graph@[j as int].deps@.len(),
                    marks@.len() == graph@.len(),
                    marks@[j as int],
                    forall|c: int|
                        0 <= c < graph@.len() && #[trigger] marks@[c] ==> is_reached(graph@, c),
                    forall|c: int| 0 <= c < graph@.len() && #[trigger] before[c] ==> marks@[c],
                    changed ==> unset(marks@) < unset(before),
                    !changed ==> marks@ == before,
                    !changed ==> forall|a: int, m: int, c: int|
                        #[trigger] depends(graph@, a, m, c) && (a < j || (a == j && m < k)) && 0
                            <= c < graph@.len() && marks@[a] && !graph@[c].is_lang ==> marks@[c],
                decreases graph@[j as int].deps@.len() - k,
            {
                let dep: usize = graph[j].deps[k];
                assert(graph@[j as int].deps@[k as int] < graph@.len());
                if !graph[dep].is_lang && !marks[dep] {
                    proof {
                        assert(depends(graph@, j as int, k as int, dep as int));
                        assert(is_reached(graph@, j as int));
                        let steps = choose|steps: nat| #[trigger] reached(graph@, j as int, steps);
                        assert(reached(graph@, dep as int, steps + 1));
                        lemma_unset_update(marks@, dep as int);
                    }
                    marks.set(dep, true);
                    changed = true;
                }
                k += 1;
            }
        }
        j += 1;
    }
    changed
}

/// The source roots of the crates that belong in a snapshot.
pub fn selected_source_root_ids(graph: &Vec<CrateNode>) -> (r: Vec<u64>)
    requires
        graph_wf(graph@),
    ensures
        forall|root: u64| #[trigger]
            r@.contains(root) <==> exists|i: int|
                #[trigger] is_selected(graph@, i) && graph@[i].source_root == root,
{
    let mut marks: Vec<bool> = Vec::new();
    let mut own = false;
    let mut i: usize = 0;
    while i < graph.len()
        invariant
            i <= graph@.len(),
            marks@.len() == i,
            forall|c: int| 0 <= c < i ==> #[trigger] marks@[c] == is_own(graph@[c]),
            own == exists|c: int| 0 <= c < i && is_own(#[trigger] graph@[c]),
        decreases graph.len() - i,
    {
        let mark = graph[i].is_local || graph[i].in_workspace;
        marks.push(mark);
        if mark {
            assert(is_own(graph@[i as int]));
            own = true;
        }
        i += 1;
    }
    proof {
        assert forall|c: int| 0 <= c < graph@.len() && #[trigger] marks@[c] implies is_reached(
            graph@,
            c,
        ) by {
            assert(reached(graph@, c, 0));
        }
        assert forall|c: int| 0 <= c < graph@.len() && is_own(#[trigger] graph@[c]) implies
            marks@[c] by {}
    }
    let mut more = own;
    while more
        invariant
            graph_wf(graph@),
            marks@.len() == graph@.len(),
            own == has_own(graph@),
            forall|c: int| 0 <= c < graph@.len() && #[trigger] marks@[c] ==> is_reached(graph@, c),
            forall|c: int| 0 <= c < graph@.len() && is_own(#[trigger] graph@[c]) ==> marks@[c],
            !more && own ==> forall|j: int, k: int, c: int|
                #[trigger] depends(graph@, j, k, c) && 0 <= c < graph@.len() && marks@[j]
                    && !graph@[c].is_lang ==> marks@[c],
        decreases unset(marks@) + if more { 1nat } else { 0nat },
    {
        more = mark_dependencies(graph, &mut marks);
    }
    proof {
        if own {
            assert forall|c: int| 0 <= c < graph@.len() implies marks@[c] == is_reached(
                graph@,
                c,
            ) by {
                if is_reached(graph@, c) {
                    let steps = choose|steps: nat| #[trigger] reached(graph@, c, steps);
                    lemma_closed(graph@, marks@, c, steps);
                }
            }
        }
    }
    let mut roots: Vec<u64> = Vec::new();
    let mut n: usize = 0;
    while n < graph.len()
        invariant
            n <= graph@.len(),
            marks@.len() == graph@.len(),
            own == has_own(graph@),
            own ==> forall|c: int|
                0 <= c < graph@.len() ==> #[trigger] marks@[c] == is_reached(graph@, c),
            forall|root: u64| #[trigger]
                roots@.contains(root) <==> exists|c: int|
                    #[trigger] is_selected(graph@, c) && c < n && graph@[c].source_root == root,
        decreases graph.len() - n,
    {
        let chosen = if own {
            marks[n]
        } else {
            !graph[n].is_lang
        };
        assert(chosen == is_selected(graph@, n as int));
        let ghost before = roots@;
        let root = graph[n].source_root;
        if chosen {
            roots.push(root);
        }
        proof {
            assert forall|other: u64| #[trigger] roots@.contains(other) <==> exists|c: int|
                #[trigger] is_selected(graph@, c) && c < n + 1 && graph@[c].source_root == other by {
                if chosen {
                    assert(roots@[before.len() as int] == root);
                }
                if before.contains(other) {
                    let m = choose|m: int| 0 <= m < before.len() && before[m] == other;
                    assert(roots@[m] == other);
                    let c = choose|c: int|
                        #[trigger] is_selected(graph@, c) && c < n && graph@[c].source_root
                            == other;
                    assert(is_selected(graph@, c) && c < n + 1);
                }
                if roots@.contains(other) && !before.contains(other) {
                    let m = choose|m: int| 0 <= m < roots@.len() && roots@[m] == other;
                    assert(m == before.len());
                    assert(is_selected(graph@, n as int));
                }
                if exists|c: int|
                    #[trigger] is_selected(graph@, c) && c < n + 1 && graph@[c].source_root
                        == other {
                    let c = choose|c: int|
                        #[trigger] is_selected(graph@, c) && c < n + 1 && graph@[c].source_root
                            == other;
                    if c < n {
                        assert(before.contains(other));
                    }
                }
            }
        }
        n += 1;
    }
    roots
}

} // verus!
