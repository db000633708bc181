//! Building the snapshot of a workspace.

use crate::ra::host::{DeterministicRaHost, HostView};
use crate::ra::lookup_store::LocalFile;
use crate::ra::snapshot_flow::{
    call_indexable, flow_indexable, method_call_indexable, with_calls, with_error_flow,
    with_kept_nodes, with_method_calls, ErrorFlow, SnapCall, SnapMethodCall,
};
use crate::ra::snapshot_items::{tree_indexable, with_module, ModuleTree};
use crate::ra::snapshot_types::{Snapshot, SnapshotBuilder};
use crate::ra::source::indexable;
use crate::ra::syntax::parsed_tree;
use crate::ra::world::{compute_world_stamp, file_views, stamp_on, WorldFile};
use vstd::prelude::*;

verus! {

/// A file of a snapshot and what is called and goes wrong in it.
pub struct FileFacts {
    pub file: LocalFile,
    pub calls: Vec<SnapCall>,
    pub method_calls: Vec<SnapMethodCall>,
    pub flow: ErrorFlow,
}

/// The files that a file's facts speak of can be indexed.
pub open spec fn facts_indexable(facts: FileFacts) -> bool {
    &&& indexable(facts.file.text@)
    &&& forall|i: int| 0 <= i < facts.calls@.len() ==> call_indexable(#[trigger] facts.calls@[i])
    &&& forall|i: int|
        0 <= i < facts.method_calls@.len() ==> method_call_indexable(
            #[trigger] facts.method_calls@[i],
        )
    &&& flow_indexable(facts.flow)
}

/// The snapshot once the first `count` crates have been told.
pub open spec fn with_crates(snapshot: Snapshot, crates: Seq<ModuleTree>, count: nat) -> Snapshot
    decreases count,
{
    if count == 0 {
        snapshot
    } else {
        with_module(
            with_crates(snapshot, crates, (count - 1) as nat),
            crates[count - 1],
            false,
        )
    }
}

/// The snapshot once a file has been told: its control constructs, its calls,
/// then its error flow.
pub open spec fn with_file(snapshot: Snapshot, facts: FileFacts) -> Snapshot {
    let tree = parsed_tree(facts.file.text@, facts.file.file_id.read_in());
    with_error_flow(
        with_method_calls(
            with_calls(
                with_kept_nodes(snapshot, facts.file, tree, tree.len()),
                facts.file,
                facts.calls@,
                facts.calls@.len(),
            ),
            facts.file,
            facts.method_calls@,
            facts.method_calls@.len(),
        ),
        facts.file,
        facts.flow,
    )
}

/// The snapshot once the first `count` files have been told.
pub open spec fn with_files(snapshot: Snapshot, files: Seq<FileFacts>, count: nat) -> Snapshot
    decreases count,
{
    if count == 0 {
        snapshot
    } else {
        with_file(with_files(snapshot, files, (count - 1) as nat), files[count - 1])
    }
}

/// The snapshot of nothing, with a stamp.
pub open spec fn stamped(stamp: Seq<char>) -> Snapshot {
    Snapshot {
        host: HostView { world_stamp: stamp, ..HostView::fresh() },
        by_path: Map::empty(),
        names: Seq::empty(),
        paths: Map::empty(),
        types: Map::empty(),
    }
}

/// The index of a workspace with a stamp.
pub open spec fn snapshot_of(
    stamp: Seq<char>,
    crates: Seq<ModuleTree>,
    files: Seq<FileFacts>,
) -> HostView {
    with_files(with_crates(stamped(stamp), crates, crates.len()), files, files.len()).host
}

impl SnapshotBuilder {
    /// Tells the definitions and types of crates.
    pub fn extract_defs_and_types(&mut self, crates: &Vec<ModuleTree>)
        requires
            old(self).wf(),
            forall|i: int| 0 <= i < crates@.len() ==> tree_indexable(#[trigger] crates@[i]),
        ensures
            final(self).wf(),
            final(self)@ == with_crates(old(self)@, crates@, crates@.len()),
    {
        let ghost start = self@;
        let mut i: usize = 0;
        while i < crates.len()
            invariant
                self.wf(),
                start == old(self)@,
                forall|k: int| 0 <= k < crates@.len() ==> tree_indexable(#[trigger] crates@[k]),
                i <= crates@.len(),
                self@ == with_crates(start, crates@, i as nat),
            decreases crates.len() - i,
        {
            assert(tree_indexable(crates@[i as int]));
            self.visit_module(&crates[i], false);
            i += 1;
        }
    }

    /// Tells the control constructs, the calls and the error flow of files.
    pub fn extract_calls_and_nodes(&mut self, files: &Vec<FileFacts>)
        requires
            old(self).wf(),
            forall|i: int| 0 <= i < files@.len() ==> facts_indexable(#[trigger] files@[i]),
        ensures
            final(self).wf(),
            final(self)@ == with_files(old(self)@, files@, files@.len()),
    {
        let ghost start = self@;
        let mut i: usize = 0;
        while i < files.len()
            invariant
                self.wf(),
                start == old(self)@,
                forall|k: int| 0 <= k < files@.len() ==> facts_indexable(#[trigger] files@[k]),
                i <= files@.len(),
                self@ == with_files(start, files@, i as nat),
            decreases files.len() - i,
        {
            let facts = &files[i];
            assert(facts_indexable(files@[i as int]));
            self.extract_nodes_for_file(&facts.file);
            self.extract_calls_for_file(&facts.file, &facts.calls, &facts.method_calls);
            self.extract_error_flow_for_file(&facts.file, &facts.flow);
            i += 1;
        }
    }
}

/// The index of a workspace: its stamp is made from its root, the files and the
/// identity of what it is made with, its contents from the crates and the files.
pub fn build_host_snapshot(
    workspace_root: &str,
    world: &Vec<WorldFile>,
    semantic_identity: &str,
    crates: &Vec<ModuleTree>,
    files: &Vec<FileFacts>,
) -> (r: DeterministicRaHost)
    requires
        forall|i: int| 0 <= i < crates@.len() ==> tree_indexable(#[trigger] crates@[i]),
        forall|i: int| 0 <= i < files@.len() ==> facts_indexable(#[trigger] files@[i]),
    ensures
        r.wf(),
        exists|machine: nat|
            r@ == snapshot_of(
                #[trigger] stamp_on(
                    machine,
                    workspace_root@,
                    file_views(world@),
                    semantic_identity@,
                ),
                crates@,
                files@,
            ),
{
    let stamp = compute_world_stamp(workspace_root, world, semantic_identity);
    let ghost text = stamp@;
    let mut builder = SnapshotBuilder::new();
    proof {
        builder.lemma_parts();
    }
    builder.host.set_world_stamp(stamp);
    proof {
        builder.lemma_parts();
        assert(builder@ == stamped(text));
    }
    builder.extract_defs_and_types(crates);
    builder.extract_calls_and_nodes(files);
    builder.finish()
}

} // verus!
