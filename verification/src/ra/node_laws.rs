//! Syntax nodes as the index and the lookups tell of them: every node of a tree with
//! its kind, its place and its parent, and the narrowest one around a place.

use crate::host::SpanKeyView;
use crate::ra::host::{HostView, NodeRecordView};
use crate::ra::index_laws::below;
use crate::ra::lookup_store::StoreView;
use crate::ra::node_lookup::{
    closest, is_around, kind_of_syntax, lineage, node_from, node_id_of, node_row_at, nodes_around,
    nodes_around_below, parent_row, ptr_id, ptr_key, row_closer, with_all_lineage, with_lineage,
    with_node_at, with_nodes_below, with_one_node,
};
use crate::ra::seeding::FileView;
use crate::ra::source::{key_in_text, span_id_of};
use crate::ra::syntax::SyntaxView;
use crate::text::lemma_text_ranks;
use vstd::prelude::*;

verus! {

/// The rows are those of a tree, parents first: the first row is the root, no row is
/// more than one level below the one before it, and nothing is below a token.
pub open spec fn is_tree(tree: Seq<SyntaxView>) -> bool {
    &&& tree.len() > 0 && !tree[0].is_token
    &&& forall|k: int| 0 < k < tree.len() ==> (#[trigger] tree[k]).depth > tree[0].depth
    &&& forall|k: int| 0 < k < tree.len() ==> #[trigger] steps_on(tree, k)
}

/// Row `k` is at most one level below the row before it, and not below it if that is
/// a token.
pub open spec fn steps_on(tree: Seq<SyntaxView>, k: int) -> bool {
    tree[k].depth <= tree[k - 1].depth + if tree[k - 1].is_token {
        0int
    } else {
        1int
    }
}

/// Every row is a range of the source.
pub open spec fn all_placed(file: FileView, tree: Seq<SyntaxView>) -> bool {
    forall|k: int|
        0 <= k < tree.len() ==> key_in_text(
            file.rel_path,
            file.source,
            (#[trigger] tree[k]).start,
            tree[k].end,
        ) is Some
}

/// No two nodes have one id.
pub open spec fn ids_apart(rel_path: Seq<char>, tree: Seq<SyntaxView>) -> bool {
    forall|a: int, b: int|
        0 <= a < b < tree.len() && !(#[trigger] tree[a]).is_token && !(#[trigger] tree[b]).is_token
            ==> node_id_of(rel_path, tree[a]) != node_id_of(rel_path, tree[b])
}

/// Row `j` is row `i` or below it.
pub open spec fn inside(tree: Seq<SyntaxView>, i: int, j: int) -> bool {
    0 <= i <= j < tree.len() && forall|k: int|
        i < k <= j ==> (#[trigger] tree[k]).depth > tree[i].depth
}

/// The record of the node at row `j` with a parent.
spec fn record(file: FileView, row: SyntaxView, parent: Option<u64>) -> NodeRecordView {
    NodeRecordView {
        kind: kind_of_syntax(row.kind),
        span: span_id_of(file.file_id, row.start, row.end),
        parent,
    }
}

/// The node at row `j` is told with its kind, its place and the parent.
pub open spec fn is_told_node(
    nodes: Map<u64, NodeRecordView>,
    file: FileView,
    tree: Seq<SyntaxView>,
    j: int,
    parent: Option<u64>,
) -> bool {
    let id = node_id_of(file.rel_path, tree[j]);
    &&& nodes.contains_key(id)
    &&& nodes[id].kind == kind_of_syntax(tree[j].kind)
    &&& nodes[id].span == span_id_of(file.file_id, tree[j].start, tree[j].end)
    &&& nodes[id].parent == parent
}

/// The nodes below row `i` are told, each with its parent.
spec fn told_below(
    nodes: Map<u64, NodeRecordView>,
    file: FileView,
    tree: Seq<SyntaxView>,
    i: int,
    from: int,
    parent: Option<u64>,
) -> bool {
    forall|p: int, j: int|
        inside(tree, i, p) && from <= j && !tree[j].is_token && #[trigger] below(tree, p, j) && (p
            == i || from <= p) ==> is_told_node(
            nodes,
            file,
            tree,
            j,
            if p == i {
                parent
            } else {
                Some(node_id_of(file.rel_path, tree[p]))
            },
        )
}

/// What is not the id of a node inside is left as it is.
spec fn others_left(
    before: Map<u64, NodeRecordView>,
    after: Map<u64, NodeRecordView>,
    file: FileView,
    tree: Seq<SyntaxView>,
    from: int,
    end: int,
) -> bool {
    forall|id: u64|
        (forall|j: int|
            from <= j < end && !(#[trigger] tree[j]).is_token ==> node_id_of(
                file.rel_path,
                tree[j],
            ) != id) ==> (#[trigger] after.contains_key(id) <==> before.contains_key(id))
            && after[id] == before[id]
}

/// The first row behind row `i` and all that is below it.
spec fn end_of(tree: Seq<SyntaxView>, i: int, from: int) -> int
    decreases tree.len() - from,
{
    if from >= tree.len() || from <= i || tree[from].depth <= tree[i].depth {
        from
    } else {
        end_of(tree, i, from + 1)
    }
}

proof fn lemma_end_of(tree: Seq<SyntaxView>, i: int, from: int)
    requires
        0 <= i < from <= tree.len(),
        forall|k: int| i < k < from ==> (#[trigger] tree[k]).depth > tree[i].depth,
    ensures
        from <= end_of(tree, i, from) <= tree.len(),
        forall|k: int| i < k < end_of(tree, i, from) ==> (#[trigger] tree[k]).depth
            > tree[i].depth,
        end_of(tree, i, from) < tree.len() ==> tree[end_of(tree, i, from)].depth <= tree[i].depth,
    decreases tree.len() - from,
{
    if from < tree.len() && tree[from].depth > tree[i].depth {
        lemma_end_of(tree, i, from + 1);
    }
}

/// The next node below a row, and the rows that are passed over.
proof fn lemma_node_from(tree: Seq<SyntaxView>, i: int, from: int)
    requires
        0 <= i < from,
        i < tree.len(),
        forall|k: int| i < k < from && k < tree.len() ==> (#[trigger] tree[k]).depth
            > tree[i].depth,
    ensures
        match node_from(tree, i, from) {
            Some(j) => from <= j && below(tree, i, j) && !tree[j].is_token && forall|k: int|
                from <= k < j ==> (#[trigger] tree[k]).is_token || tree[k].depth != tree[i].depth
                    + 1,
            None => forall|j: int|
                from <= j && #[trigger] below(tree, i, j) ==> tree[j].is_token,
        },
    decreases tree.len() - from,
{
    if from < tree.len() && tree[from].depth > tree[i].depth {
        if !(tree[from].depth == tree[i].depth + 1 && !tree[from].is_token) {
            lemma_node_from(tree, i, from + 1);
        }
    } else {
        assert forall|j: int| from <= j && #[trigger] below(tree, i, j) implies tree[j].is_token by {
            if from < j {
                assert(tree[from].depth > tree[i].depth);
            }
        }
    }
}

/// Rows in a tree that lie between the nodes below a row are below one of them.
proof fn lemma_gap(tree: Seq<SyntaxView>, i: int, from: int, j: int, k: int)
    requires
        is_tree(tree),
        0 <= i < from <= k < j <= tree.len(),
        forall|m: int| i < m < j ==> (#[trigger] tree[m]).depth > tree[i].depth,
        forall|m: int|
            from <= m < j ==> (#[trigger] tree[m]).is_token || tree[m].depth != tree[i].depth + 1,
        from == i + 1 || tree[from].depth <= tree[i].depth + 1,
    ensures
        tree[k].depth == tree[i].depth + 1,
        tree[k].is_token,
    decreases k - from,
{
    if k == from {
        if from == i + 1 {
            assert(steps_on(tree, from));
        }
    } else {
        lemma_gap(tree, i, from, j, k - 1);
        assert(steps_on(tree, k));
    }
}

/// What telling the node at row `i` and those in it does.
proof fn lemma_node_at(
    host: HostView,
    file: FileView,
    tree: Seq<SyntaxView>,
    i: int,
    parent: Option<u64>,
)
    requires
        is_tree(tree),
        all_placed(file, tree),
        ids_apart(file.rel_path, tree),
        0 <= i < tree.len(),
        !tree[i].is_token,
    ensures
        ({
            let after = with_node_at(host, file, tree, i, parent).nodes;
            let end = end_of(tree, i, i + 1);
            &&& is_told_node(after, file, tree, i, parent)
            &&& told_below(
                after,
                file,
                tree,
                i,
                i + 1,
                Some(node_id_of(file.rel_path, tree[i])),
            )
            &&& others_left(host.nodes, after, file, tree, i, end)
        }),
    decreases tree.len() - i, 0nat,
{
    let own = node_id_of(file.rel_path, tree[i]);
    let one = with_one_node(host, file, tree[i], parent);
    lemma_end_of(tree, i, i + 1);
    assert(key_in_text(file.rel_path, file.source, tree[i].start, tree[i].end) is Some);
    lemma_nodes_below(one, file, tree, i, i + 1, Some(own));
    let after = with_node_at(host, file, tree, i, parent).nodes;
    let end = end_of(tree, i, i + 1);
    assert(forall|j: int|
        i + 1 <= j < end && !(#[trigger] tree[j]).is_token ==> node_id_of(file.rel_path, tree[j])
            != own);
    assert(after.contains_key(own) <==> one.nodes.contains_key(own));
    assert forall|id: u64|
        (forall|j: int|
            i <= j < end && !(#[trigger] tree[j]).is_token ==> node_id_of(file.rel_path, tree[j])
                != id) implies (#[trigger] after.contains_key(id) <==> host.nodes.contains_key(id))
        && after[id] == host.nodes[id] by {
        assert(!tree[i].is_token);
        assert(id != own);
        assert(after.contains_key(id) <==> one.nodes.contains_key(id));
    }
}

/// Where a node stands that is below row `i`: it is the next node there, inside that
/// node, or behind it.
proof fn lemma_where(
    tree: Seq<SyntaxView>,
    i: int,
    from: int,
    j: int,
    last: int,
    end: int,
    p: int,
    m: int,
)
    requires
        is_tree(tree),
        0 <= i < from <= j < last <= end <= tree.len(),
        forall|k: int| i < k < end ==> (#[trigger] tree[k]).depth > tree[i].depth,
        end < tree.len() ==> tree[end].depth <= tree[i].depth,
        from == i + 1 || tree[from].depth <= tree[i].depth + 1,
        tree[j].depth == tree[i].depth + 1,
        forall|k: int|
            from <= k < j ==> (#[trigger] tree[k]).is_token || tree[k].depth != tree[i].depth + 1,
        forall|k: int| j < k < last ==> (#[trigger] tree[k]).depth > tree[j].depth,
        last < tree.len() ==> tree[last].depth <= tree[j].depth,
        inside(tree, i, p),
        from <= m,
        !tree[m].is_token,
        below(tree, p, m),
        p == i || from <= p,
    ensures
        m < end,
        m < last ==> (p == i && m == j) || (p != i && j <= p && inside(tree, j, p)),
        last <= m ==> p == i || last <= p,
        j <= m,
{
    if end <= m {
        if p == i || end <= p {
            if end < m || end <= p {
                assert(tree[end].depth > tree[i].depth);
            }
        } else if end < m {
            assert(tree[end].depth > tree[p].depth);
            assert(tree[p].depth > tree[i].depth);
        }
        assert(false);
    }
    if p != i && p < j {
        lemma_gap(tree, i, from, j, p);
        assert(tree[p + 1].depth > tree[p].depth);
        assert(steps_on(tree, p + 1));
        assert(false);
    }
    if m < j {
        lemma_gap(tree, i, from, j, m);
        assert(false);
    }
    if m < last {
        if p == i {
            if j < m {
                assert(tree[m].depth > tree[j].depth);
            }
        } else {
            assert forall|k: int| j < k <= p implies (#[trigger] tree[k]).depth
                > tree[j].depth by {
                assert(k < last);
            }
        }
    } else if p != i && p < last {
        if j < p {
            assert(tree[p].depth > tree[j].depth);
        }
        if last < m {
            assert(tree[last].depth > tree[p].depth);
        }
        assert(false);
    }
}

/// A node that was told is left as it is by those told behind it.
proof fn lemma_left_alone(
    before: Map<u64, NodeRecordView>,
    after: Map<u64, NodeRecordView>,
    file: FileView,
    tree: Seq<SyntaxView>,
    last: int,
    end: int,
    m: int,
)
    requires
        ids_apart(file.rel_path, tree),
        others_left(before, after, file, tree, last, end),
        0 <= m < last <= end <= tree.len(),
        !tree[m].is_token,
    ensures
        ({
            let id = node_id_of(file.rel_path, tree[m]);
            (after.contains_key(id) <==> before.contains_key(id)) && after[id] == before[id]
        }),
{
    let id = node_id_of(file.rel_path, tree[m]);
    assert forall|k: int| last <= k < end && !(#[trigger] tree[k]).is_token implies node_id_of(
        file.rel_path,
        tree[k],
    ) != id by {
        assert(m < k);
    }
    assert(after.contains_key(id) <==> before.contains_key(id));
}

/// What was told of a node and what is told behind it go together.
proof fn lemma_merge_told(
    told: Map<u64, NodeRecordView>,
    after: Map<u64, NodeRecordView>,
    file: FileView,
    tree: Seq<SyntaxView>,
    i: int,
    from: int,
    j: int,
    last: int,
    end: int,
    parent: Option<u64>,
)
    requires
        is_tree(tree),
        ids_apart(file.rel_path, tree),
        0 <= i < from <= j < last <= end <= tree.len(),
        forall|k: int| i < k < end ==> (#[trigger] tree[k]).depth > tree[i].depth,
        end < tree.len() ==> tree[end].depth <= tree[i].depth,
        from == i + 1 || tree[from].depth <= tree[i].depth + 1,
        tree[j].depth == tree[i].depth + 1,
        !tree[j].is_token,
        forall|k: int|
            from <= k < j ==> (#[trigger] tree[k]).is_token || tree[k].depth != tree[i].depth + 1,
        forall|k: int| j < k < last ==> (#[trigger] tree[k]).depth > tree[j].depth,
        last < tree.len() ==> tree[last].depth <= tree[j].depth,
        is_told_node(told, file, tree, j, parent),
        told_below(told, file, tree, j, j + 1, Some(node_id_of(file.rel_path, tree[j]))),
        told_below(after, file, tree, i, last, parent),
        others_left(told, after, file, tree, last, end),
    ensures
        told_below(after, file, tree, i, from, parent),
{
    assert forall|p: int, m: int|
        inside(tree, i, p) && from <= m && !tree[m].is_token && #[trigger] below(tree, p, m) && (p
            == i || from <= p) implies is_told_node(
        after,
        file,
        tree,
        m,
        if p == i {
            parent
        } else {
            Some(node_id_of(file.rel_path, tree[p]))
        },
    ) by {
        lemma_where(tree, i, from, j, last, end, p, m);
        if m < last {
            lemma_left_alone(told, after, file, tree, last, end, m);
        }
    }
}

proof fn lemma_merge_others(
    before: Map<u64, NodeRecordView>,
    told: Map<u64, NodeRecordView>,
    after: Map<u64, NodeRecordView>,
    file: FileView,
    tree: Seq<SyntaxView>,
    from: int,
    j: int,
    last: int,
    end: int,
)
    requires
        0 <= from <= j < last <= end <= tree.len(),
        others_left(before, told, file, tree, j, last),
        others_left(told, after, file, tree, last, end),
    ensures
        others_left(before, after, file, tree, from, end),
{
    assert forall|id: u64|
        (forall|k: int|
            from <= k < end && !(#[trigger] tree[k]).is_token ==> node_id_of(
                file.rel_path,
                tree[k],
            ) != id) implies (#[trigger] after.contains_key(id) <==> before.contains_key(id))
        && after[id] == before[id] by {
        assert(forall|k: int|
            last <= k < end && !(#[trigger] tree[k]).is_token ==> node_id_of(
                file.rel_path,
                tree[k],
            ) != id);
        assert(forall|k: int|
            j <= k < last && !(#[trigger] tree[k]).is_token ==> node_id_of(
                file.rel_path,
                tree[k],
            ) != id);
        assert(after.contains_key(id) <==> told.contains_key(id));
        assert(told.contains_key(id) <==> before.contains_key(id));
    }
}

/// Where no node is directly below a row there is none below it at all.
proof fn lemma_none_below(
    nodes: Map<u64, NodeRecordView>,
    file: FileView,
    tree: Seq<SyntaxView>,
    i: int,
    from: int,
    end: int,
    parent: Option<u64>,
)
    requires
        is_tree(tree),
        0 <= i < from <= end <= tree.len(),
        forall|k: int| i < k < end ==> (#[trigger] tree[k]).depth > tree[i].depth,
        end < tree.len() ==> tree[end].depth <= tree[i].depth,
        from == i + 1 || from == tree.len() || tree[from].depth <= tree[i].depth + 1,
        forall|j: int| from <= j && #[trigger] below(tree, i, j) ==> tree[j].is_token,
    ensures
        told_below(nodes, file, tree, i, from, parent),
{
    assert forall|p: int, m: int|
        inside(tree, i, p) && from <= m && !tree[m].is_token && #[trigger] below(tree, p, m) && (p
            == i || from <= p) implies false by {
        if p != i {
            if end <= p {
                assert(tree[end].depth > tree[i].depth);
            }
            assert forall|k: int| from <= k < end implies (#[trigger] tree[k]).is_token
                || tree[k].depth != tree[i].depth + 1 by {
                if tree[k].depth == tree[i].depth + 1 {
                    assert(below(tree, i, k));
                }
            }
            lemma_gap(tree, i, from, end, p);
            assert(tree[p + 1].depth > tree[p].depth);
            assert(steps_on(tree, p + 1));
        }
    }
}

/// What telling the nodes below row `i`, from row `from` on, does.
proof fn lemma_nodes_below(
    host: HostView,
    file: FileView,
    tree: Seq<SyntaxView>,
    i: int,
    from: int,
    parent: Option<u64>,
)
    requires
        is_tree(tree),
        all_placed(file, tree),
        ids_apart(file.rel_path, tree),
        0 <= i < from <= end_of(tree, i, i + 1),
        end_of(tree, i, i + 1) <= tree.len(),
        forall|k: int| i < k < end_of(tree, i, i + 1) ==> (#[trigger] tree[k]).depth
            > tree[i].depth,
        end_of(tree, i, i + 1) < tree.len() ==> tree[end_of(tree, i, i + 1)].depth
            <= tree[i].depth,
        from == i + 1 || from == tree.len() || tree[from].depth <= tree[i].depth + 1,
    ensures
        ({
            let after = with_nodes_below(host, file, tree, i, from, parent).nodes;
            &&& told_below(after, file, tree, i, from, parent)
            &&& others_left(host.nodes, after, file, tree, from, end_of(tree, i, i + 1))
        }),
    decreases tree.len() - from, 1nat,
{
    let end = end_of(tree, i, i + 1);
    lemma_node_from(tree, i, from);
    match node_from(tree, i, from) {
        Some(j) => {
            if end <= j {
                assert(tree[end].depth > tree[i].depth);
            }
            let told = with_node_at(host, file, tree, j, parent);
            let last = end_of(tree, j, j + 1);
            lemma_end_of(tree, j, j + 1);
            if end < last {
                assert(tree[end].depth > tree[j].depth);
            }
            lemma_node_at(host, file, tree, j, parent);
            lemma_skip_inner(told, file, tree, i, j, j + 1, last, parent);
            lemma_nodes_below(told, file, tree, i, last, parent);
            let after = with_nodes_below(told, file, tree, i, last, parent).nodes;
            lemma_merge_told(told.nodes, after, file, tree, i, from, j, last, end, parent);
            lemma_merge_others(host.nodes, told.nodes, after, file, tree, from, j, last, end);
        },
        None => {
            lemma_none_below(host.nodes, file, tree, i, from, end, parent);
        },
    }
}

/// Between the end of a node and the next node of the same level nothing is told.
proof fn lemma_skip_inner(
    host: HostView,
    file: FileView,
    tree: Seq<SyntaxView>,
    i: int,
    j: int,
    from: int,
    last: int,
    parent: Option<u64>,
)
    requires
        0 <= i < j < from <= last <= tree.len(),
        tree[j].depth == tree[i].depth + 1,
        forall|k: int| j < k < last ==> (#[trigger] tree[k]).depth > tree[j].depth,
    ensures
        with_nodes_below(host, file, tree, i, from, parent) == with_nodes_below(
            host,
            file,
            tree,
            i,
            last,
            parent,
        ),
    decreases last - from,
{
    if from < last {
        assert(tree[from].depth > tree[j].depth);
        assert(node_from(tree, i, from) == node_from(tree, i, from + 1));
        lemma_skip_inner(host, file, tree, i, j, from + 1, last, parent);
        lemma_node_from_range(tree, i, from + 1);
    }
}

proof fn lemma_node_from_range(tree: Seq<SyntaxView>, i: int, from: int)
    ensures
        match node_from(tree, i, from) {
            Some(j) => from <= j < tree.len(),
            None => true,
        },
    decreases tree.len() - from,
{
    if 0 <= i < from && from < tree.len() && tree[from].depth > tree[i].depth {
        lemma_node_from_range(tree, i, from + 1);
    }
}

/// Every node of a file's tree is told with its kind and its place, the root without
/// a parent and every other node with the node that it is directly below.
pub proof fn law_every_node_is_told_with_its_parent(
    host: HostView,
    file: FileView,
    tree: Seq<SyntaxView>,
)
    requires
        is_tree(tree),
        all_placed(file, tree),
        ids_apart(file.rel_path, tree),
    ensures
        ({
            let nodes = with_node_at(host, file, tree, 0, None).nodes;
            &&& is_told_node(nodes, file, tree, 0, None)
            &&& forall|p: int, j: int|
                !tree[j].is_token && #[trigger] below(tree, p, j) ==> is_told_node(
                    nodes,
                    file,
                    tree,
                    j,
                    Some(node_id_of(file.rel_path, tree[p])),
                )
        }),
{
    lemma_node_at(host, file, tree, 0, None);
    let nodes = with_node_at(host, file, tree, 0, None).nodes;
    assert forall|p: int, j: int|
        !tree[j].is_token && #[trigger] below(tree, p, j) implies is_told_node(
        nodes,
        file,
        tree,
        j,
        Some(node_id_of(file.rel_path, tree[p])),
    ) by {
        assert(inside(tree, 0, p));
    }
}

/// The range of a row holds those of all rows below it.
pub open spec fn is_nested(tree: Seq<SyntaxView>) -> bool {
    forall|i: int, j: int| #[trigger]
        inside(tree, i, j) ==> tree[i].start <= tree[j].start && tree[j].end <= tree[i].end
}

/// Row `j` is a node whose range holds the asked one.
pub open spec fn holds_range(tree: Seq<SyntaxView>, j: int, start: nat, end: nat) -> bool {
    0 <= j < tree.len() && !tree[j].is_token && tree[j].start <= start && end <= tree[j].end
}

proof fn lemma_skip_around(
    file: FileView,
    tree: Seq<SyntaxView>,
    i: int,
    j: int,
    from: int,
    last: int,
    start: nat,
    end: nat,
)
    requires
        0 <= i < j < from <= last <= tree.len(),
        tree[j].depth == tree[i].depth + 1,
        forall|k: int| j < k < last ==> (#[trigger] tree[k]).depth > tree[j].depth,
    ensures
        nodes_around_below(file, tree, i, from, start, end) == nodes_around_below(
            file,
            tree,
            i,
            last,
            start,
            end,
        ),
    decreases last - from,
{
    if from < last {
        assert(tree[from].depth > tree[j].depth);
        assert(node_from(tree, i, from) == node_from(tree, i, from + 1));
        lemma_skip_around(file, tree, i, j, from + 1, last, start, end);
        lemma_node_from_range(tree, i, from + 1);
    }
}

/// Every node around the range is collected.
proof fn lemma_all_around(
    file: FileView,
    tree: Seq<SyntaxView>,
    i: int,
    start: nat,
    end: nat,
    j: int,
)
    requires
        is_tree(tree),
        all_placed(file, tree),
        is_nested(tree),
        inside(tree, i, j),
        !tree[i].is_token,
        holds_range(tree, j, start, end),
    ensures
        nodes_around(file, tree, i, start, end).contains(j),
    decreases tree.len() - i, 0nat,
{
    assert(key_in_text(file.rel_path, file.source, tree[i].start, tree[i].end) is Some);
    assert(is_around(file, tree[i], start, end));
    let below_it = nodes_around_below(file, tree, i, i + 1, start, end);
    let all = nodes_around(file, tree, i, start, end);
    if i == j {
        assert(all[0] == i);
    } else {
        lemma_all_around_below(file, tree, i, i + 1, start, end, j);
        let k = choose|k: int| 0 <= k < below_it.len() && below_it[k] == j;
        assert(all[k + 1] == j);
    }
}

proof fn lemma_all_around_below(
    file: FileView,
    tree: Seq<SyntaxView>,
    i: int,
    from: int,
    start: nat,
    end: nat,
    j: int,
)
    requires
        is_tree(tree),
        all_placed(file, tree),
        is_nested(tree),
        inside(tree, i, j),
        i < from <= j,
        from == i + 1 || tree[from].depth <= tree[i].depth + 1,
        holds_range(tree, j, start, end),
    ensures
        nodes_around_below(file, tree, i, from, start, end).contains(j),
    decreases tree.len() - from, 1nat,
{
    lemma_node_from(tree, i, from);
    let all = nodes_around_below(file, tree, i, from, start, end);
    match node_from(tree, i, from) {
        Some(c) => {
            if j < c {
                assert forall|m: int| i < m < c implies (#[trigger] tree[m]).depth
                    > tree[i].depth by {}
                lemma_gap(tree, i, from, c, j);
            }
            let last = end_of(tree, c, c + 1);
            lemma_end_of(tree, c, c + 1);
            let first = nodes_around(file, tree, c, start, end);
            let rest = nodes_around_below(file, tree, i, c + 1, start, end);
            if j < last {
                assert(inside(tree, c, j)) by {
                    assert forall|k: int| c < k <= j implies (#[trigger] tree[k]).depth
                        > tree[c].depth by {}
                }
                lemma_all_around(file, tree, c, start, end, j);
                let k = choose|k: int| 0 <= k < first.len() && first[k] == j;
                assert(all[k] == j);
            } else {
                lemma_skip_around(file, tree, i, c, c + 1, last, start, end);
                lemma_all_around_below(file, tree, i, last, start, end, j);
                let k = choose|k: int| 0 <= k < rest.len() && rest[k] == j;
                assert(all[first.len() + k] == j);
            }
        },
        None => {
            assert forall|m: int| from <= m <= j implies (#[trigger] tree[m]).is_token
                || tree[m].depth != tree[i].depth + 1 by {
                if tree[m].depth == tree[i].depth + 1 {
                    assert(below(tree, i, m));
                }
            }
            lemma_gap(tree, i, from, j + 1, j);
        },
    }
}

/// What is collected are nodes around the range.
proof fn lemma_only_around(
    file: FileView,
    tree: Seq<SyntaxView>,
    i: int,
    start: nat,
    end: nat,
    j: int,
)
    requires
        0 <= i < tree.len(),
        !tree[i].is_token,
        nodes_around(file, tree, i, start, end).contains(j),
    ensures
        holds_range(tree, j, start, end),
    decreases tree.len() - i, 0nat,
{
    let all = nodes_around(file, tree, i, start, end);
    let below_it = nodes_around_below(file, tree, i, i + 1, start, end);
    let k = choose|k: int| 0 <= k < all.len() && all[k] == j;
    if k > 0 {
        assert(below_it[k - 1] == j);
        assert(below_it.contains(j));
        lemma_only_around_below(file, tree, i, i + 1, start, end, j);
    }
}

proof fn lemma_only_around_below(
    file: FileView,
    tree: Seq<SyntaxView>,
    i: int,
    from: int,
    start: nat,
    end: nat,
    j: int,
)
    requires
        nodes_around_below(file, tree, i, from, start, end).contains(j),
    ensures
        holds_range(tree, j, start, end),
    decreases tree.len() - from, 1nat,
{
    let all = nodes_around_below(file, tree, i, from, start, end);
    let k = choose|k: int| 0 <= k < all.len() && all[k] == j;
    if let Some(c) = node_from(tree, i, from) {
        if from <= c < tree.len() {
            lemma_node_from_node(tree, i, from);
            let first = nodes_around(file, tree, c, start, end);
            let rest = nodes_around_below(file, tree, i, c + 1, start, end);
            if k < first.len() {
                assert(first[k] == j);
                assert(first.contains(j));
                lemma_only_around(file, tree, c, start, end, j);
            } else {
                assert(rest[k - first.len()] == j);
                assert(rest.contains(j));
                lemma_only_around_below(file, tree, i, c + 1, start, end, j);
            }
        }
    }
}

proof fn lemma_node_from_node(tree: Seq<SyntaxView>, i: int, from: int)
    ensures
        match node_from(tree, i, from) {
            Some(j) => from <= j < tree.len() && !tree[j].is_token && 0 <= i,
            None => true,
        },
    decreases tree.len() - from,
{
    if 0 <= i < from && from < tree.len() && tree[from].depth > tree[i].depth {
        lemma_node_from_node(tree, i, from + 1);
    }
}

proof fn lemma_row_closer(file: FileView, a: SyntaxView, b: SyntaxView, c: SyntaxView)
    ensures
        !row_closer(file, a, a),
        row_closer(file, a, b) && row_closer(file, b, c) ==> row_closer(file, a, c),
{
    lemma_text_ranks(ptr_key(a), ptr_key(b), ptr_key(c));
}

/// The closest of rows is one of them, and none is closer.
proof fn lemma_closest(file: FileView, tree: Seq<SyntaxView>, rows: Seq<int>)
    ensures
        match closest(file, tree, rows) {
            Some(best) => rows.contains(best) && forall|k: int|
                0 <= k < rows.len() ==> !row_closer(file, tree[#[trigger] rows[k]], tree[best]),
            None => rows.len() == 0,
        },
    decreases rows.len(),
{
    if rows.len() > 0 {
        let rest = rows.drop_last();
        lemma_closest(file, tree, rest);
        let best = closest(file, tree, rows)->0;
        let last = rows.last();
        assert(rows[rows.len() - 1] == last);
        match closest(file, tree, rest) {
            Some(held) => {
                let k = choose|k: int| 0 <= k < rest.len() && rest[k] == held;
                assert(rows[k] == held);
                assert forall|k: int| 0 <= k < rows.len() implies !row_closer(
                    file,
                    tree[#[trigger] rows[k]],
                    tree[best],
                ) by {
                    lemma_row_closer(file, tree[best], tree[best], tree[best]);
                    if k < rest.len() {
                        assert(rest[k] == rows[k]);
                        lemma_row_closer(file, tree[rows[k]], tree[best], tree[held]);
                    }
                }
            },
            None => {
                lemma_row_closer(file, tree[last], tree[last], tree[last]);
            },
        }
    }
}

/// How many lines a range goes on for.
pub open spec fn line_span(key: SpanKeyView) -> int {
    if key.end.0 >= key.start.0 {
        key.end.0 - key.start.0
    } else {
        0
    }
}

/// How many columns a range on one line has.
pub open spec fn column_span(key: SpanKeyView) -> int {
    if key.end.1 >= key.start.1 {
        key.end.1 - key.start.1
    } else {
        0
    }
}

/// A range is no wider than another: it goes on for fewer lines, or for as many and,
/// where that is one line, over no more columns.
pub open spec fn no_wider(key: SpanKeyView, other: SpanKeyView) -> bool {
    line_span(key) < line_span(other) || (line_span(key) == line_span(other) && (line_span(key) > 0
        || column_span(key) <= column_span(other)))
}

/// What stands at a range of a file is the narrowest node around it: there is one
/// wherever a node holds the range, it holds the range itself, and no node that does
/// is narrower.
pub proof fn law_the_narrowest_node_stands_at_a_place(
    file: FileView,
    tree: Seq<SyntaxView>,
    start: nat,
    end: nat,
)
    requires
        is_tree(tree),
        all_placed(file, tree),
        is_nested(tree),
    ensures
        match node_row_at(file, tree, start, end) {
            Some(best) => holds_range(tree, best, start, end) && forall|j: int| #[trigger]
                holds_range(tree, j, start, end) ==> no_wider(
                    key_in_text(file.rel_path, file.source, tree[best].start, tree[best].end)->0,
                    key_in_text(file.rel_path, file.source, tree[j].start, tree[j].end)->0,
                ),
            None => forall|j: int| !#[trigger] holds_range(tree, j, start, end),
        },
{
    let rows = nodes_around(file, tree, 0, start, end);
    lemma_closest(file, tree, rows);
    assert forall|j: int| #[trigger] holds_range(tree, j, start, end) implies rows.contains(j) by {
        assert(inside(tree, 0, j));
        lemma_all_around(file, tree, 0, start, end, j);
    }
    if let Some(best) = node_row_at(file, tree, start, end) {
        lemma_only_around(file, tree, 0, start, end, best);
        assert forall|j: int| #[trigger] holds_range(tree, j, start, end) implies no_wider(
            key_in_text(file.rel_path, file.source, tree[best].start, tree[best].end)->0,
            key_in_text(file.rel_path, file.source, tree[j].start, tree[j].end)->0,
        ) by {
            let k = choose|k: int| 0 <= k < rows.len() && rows[k] == j;
            assert(!row_closer(file, tree[rows[k]], tree[best]));
        }
    }
}

/// The node that the index finds at a span lies around it, and no node around it is
/// narrower.
pub proof fn law_the_index_finds_the_narrowest_node(host: HostView, span: u64, node: u64, other: u64)
    requires
        host.is_node_at(span, node),
        host.nodes.contains_key(other),
        ({
            let outer = host.span_key_of(host.nodes[other].span);
            let inner = host.span_key_of(span);
            &&& outer.rel_path == inner.rel_path
            &&& outer.start.0 < inner.start.0 || (outer.start.0 == inner.start.0 && outer.start.1
                <= inner.start.1)
            &&& inner.end.0 < outer.end.0 || (inner.end.0 == outer.end.0 && inner.end.1
                <= outer.end.1)
        }),
    ensures
        ({
            let found = host.span_key_of(host.nodes[node].span);
            let inner = host.span_key_of(span);
            &&& found.rel_path == inner.rel_path
            &&& found.start.0 < inner.start.0 || (found.start.0 == inner.start.0 && found.start.1
                <= inner.start.1)
            &&& inner.end.0 < found.end.0 || (inner.end.0 == found.end.0 && inner.end.1
                <= found.end.1)
            &&& no_wider(found, host.span_key_of(host.nodes[other].span))
        }),
{
    assert(host.around(span, other));
    assert(!host.closer(other, node));
}

/// No two nodes of a tree have one id by kind and range.
pub open spec fn ptrs_apart(tree: Seq<SyntaxView>) -> bool {
    forall|a: int, b: int|
        0 <= a < b < tree.len() && !(#[trigger] tree[a]).is_token && !(#[trigger] tree[b]).is_token
            ==> ptr_id(tree[a]) != ptr_id(tree[b])
}

/// The parent row is the one that a row is directly below.
proof fn lemma_parent_row(tree: Seq<SyntaxView>, i: int, from: int)
    requires
        is_tree(tree),
        0 <= from < i < tree.len(),
        forall|k: int| from < k < i ==> (#[trigger] tree[k]).depth >= tree[i].depth,
    ensures
        parent_row(tree, i, from) is Some,
        0 <= (parent_row(tree, i, from)->0) < i,
        below(tree, parent_row(tree, i, from)->0, i),
    decreases from,
{
    if tree[from].depth < tree[i].depth {
        assert(tree[from].depth + 1 == tree[i].depth) by {
            assert(steps_on(tree, from + 1));
            if from + 1 < i {
                assert(tree[from + 1].depth >= tree[i].depth);
            }
        }
        assert forall|k: int| from < k < i implies (#[trigger] tree[k]).depth
            > tree[from].depth by {}
    } else {
        assert(from > 0);
        lemma_parent_row(tree, i, from - 1);
    }
}

/// A row is directly below one row only.
proof fn lemma_one_parent(tree: Seq<SyntaxView>, p: int, q: int, j: int)
    requires
        below(tree, p, j),
        below(tree, q, j),
    ensures
        p == q,
{
    if p < q {
        assert(tree[q].depth > tree[p].depth);
    } else if q < p {
        assert(tree[p].depth > tree[q].depth);
    }
}

/// Row `k` of the rows is directly below the one before it.
spec fn goes_down(tree: Seq<SyntaxView>, rows: Seq<int>, k: int) -> bool {
    below(tree, rows[k - 1], rows[k])
}

/// The rows from the root to a row: each is directly below the one before it.
proof fn lemma_lineage(tree: Seq<SyntaxView>, i: int)
    requires
        is_tree(tree),
        0 <= i < tree.len(),
        !tree[i].is_token,
    ensures
        lineage(tree, i).len() > 0,
        lineage(tree, i)[0] == 0,
        lineage(tree, i).last() == i,
        forall|k: int|
            0 <= k < lineage(tree, i).len() ==> 0 <= #[trigger] lineage(tree, i)[k] < tree.len()
                && !tree[lineage(tree, i)[k]].is_token && inside(tree, lineage(tree, i)[k], i),
        forall|k: int|
            0 < k < lineage(tree, i).len() ==> #[trigger] goes_down(tree, lineage(tree, i), k),
    decreases i,
{
    if i > 0 {
        lemma_parent_row(tree, i, i - 1);
        let p = parent_row(tree, i, i - 1)->0;
        assert(steps_on(tree, p + 1));
        assert(!tree[p].is_token) by {
            assert(tree[p + 1].depth > tree[p].depth);
        }
        lemma_lineage(tree, p);
        let up = lineage(tree, p);
        let all = lineage(tree, i);
        assert(all =~= up.push(i));
        assert forall|k: int| 0 <= k < all.len() implies 0 <= #[trigger] all[k] < tree.len()
            && !tree[all[k]].is_token && inside(tree, all[k], i) by {
            if k < up.len() {
                assert(up[k] == all[k]);
                assert(inside(tree, up[k], p));
                assert forall|m: int| all[k] < m <= i implies (#[trigger] tree[m]).depth
                    > tree[all[k]].depth by {
                    if m > p {
                        assert(tree[m].depth > tree[p].depth);
                        if all[k] < p {
                            assert(tree[p].depth > tree[all[k]].depth);
                        }
                    }
                }
            }
        }
        assert forall|k: int| 0 < k < all.len() implies #[trigger] goes_down(tree, all, k) by {
            if k < up.len() {
                assert(goes_down(tree, up, k));
                assert(up[k] == all[k] && up[k - 1] == all[k - 1]);
            } else {
                assert(all[k - 1] == up.last());
            }
        }
    } else {
        assert(parent_row(tree, 0, -1) is None);
        assert(lineage(tree, 0) =~= seq![0int]);
    }
}

/// The node at row `j` is kept with its kind, its place and the parent.
pub open spec fn is_kept_node(
    nodes: Map<u64, NodeRecordView>,
    file: FileView,
    tree: Seq<SyntaxView>,
    j: int,
    parent: Option<u64>,
) -> bool {
    let id = ptr_id(tree[j]);
    &&& nodes.contains_key(id)
    &&& nodes[id].kind == kind_of_syntax(tree[j].kind)
    &&& nodes[id].span == span_id_of(file.file_id, tree[j].start, tree[j].end)
    &&& nodes[id].parent == parent
}

/// Row `k` of the rows is kept with the one before it as its parent.
spec fn kept_in(
    nodes: Map<u64, NodeRecordView>,
    file: FileView,
    tree: Seq<SyntaxView>,
    rows: Seq<int>,
    k: int,
) -> bool {
    is_kept_node(
        nodes,
        file,
        tree,
        rows[k],
        if k == 0 {
            None
        } else {
            Some(ptr_id(tree[rows[k - 1]]))
        },
    )
}

proof fn lemma_with_lineage(
    store: StoreView,
    file: FileView,
    tree: Seq<SyntaxView>,
    i: int,
    count: nat,
)
    requires
        is_tree(tree),
        all_placed(file, tree),
        ptrs_apart(tree),
        0 <= i < tree.len(),
        !tree[i].is_token,
        count <= lineage(tree, i).len(),
    ensures
        ({
            let rows = lineage(tree, i);
            let (told, last) = with_lineage(store, file, tree, rows, count);
            &&& last == Some(
                if count == 0 {
                    None
                } else {
                    Some(ptr_id(tree[rows[count - 1]]))
                },
            )
            &&& forall|k: int| 0 <= k < count ==> #[trigger] kept_in(told.nodes, file, tree, rows, k)
        }),
    decreases count,
{
    if count > 0 {
        let rows = lineage(tree, i);
        let n = count - 1;
        lemma_lineage(tree, i);
        lemma_with_lineage(store, file, tree, i, n as nat);
        let row = tree[rows[n]];
        assert(key_in_text(file.rel_path, file.source, row.start, row.end) is Some);
        let before = with_lineage(store, file, tree, rows, n as nat).0;
        let told = with_lineage(store, file, tree, rows, count).0;
        assert forall|k: int| 0 <= k < count implies #[trigger] kept_in(
            told.nodes,
            file,
            tree,
            rows,
            k,
        ) by {
            if k < n {
                lemma_lineage_ascends(tree, i, k, n);
                assert(!tree[rows[k]].is_token && !tree[rows[n]].is_token);
                assert(ptr_id(tree[rows[k]]) != ptr_id(row));
                assert(kept_in(before.nodes, file, tree, rows, k));
            }
        }
    }
}

proof fn lemma_lineage_ascends(tree: Seq<SyntaxView>, i: int, k: int, n: int)
    requires
        is_tree(tree),
        0 <= i < tree.len(),
        !tree[i].is_token,
        0 <= k < n < lineage(tree, i).len(),
    ensures
        lineage(tree, i)[k] < lineage(tree, i)[n],
    decreases n - k,
{
    lemma_lineage(tree, i);
    let rows = lineage(tree, i);
    assert(goes_down(tree, rows, n));
    if k < n - 1 {
        lemma_lineage_ascends(tree, i, k, n - 1);
    }
}

/// A node that is looked up is kept together with every node that it stands in, the
/// root without a parent and each other with the node that it is directly below; and
/// the node itself is the answer.
pub proof fn law_looked_up_nodes_are_kept_with_their_parents(
    store: StoreView,
    file: FileView,
    tree: Seq<SyntaxView>,
    i: int,
)
    requires
        is_tree(tree),
        all_placed(file, tree),
        ptrs_apart(tree),
        0 <= i < tree.len(),
        !tree[i].is_token,
    ensures
        ({
            let (told, answer) = with_all_lineage(store, file, tree, i);
            &&& answer == Some(ptr_id(tree[i]))
            &&& is_kept_node(told.nodes, file, tree, 0, None)
            &&& forall|p: int, j: int|
                inside(tree, j, i) && !tree[j].is_token && #[trigger] below(tree, p, j)
                    ==> is_kept_node(told.nodes, file, tree, j, Some(ptr_id(tree[p])))
        }),
{
    let rows = lineage(tree, i);
    lemma_lineage(tree, i);
    lemma_with_lineage(store, file, tree, i, rows.len());
    let (told, answer) = with_all_lineage(store, file, tree, i);
    assert(kept_in(told.nodes, file, tree, rows, 0));
    assert forall|p: int, j: int|
        inside(tree, j, i) && !tree[j].is_token && #[trigger] below(
            tree,
            p,
            j,
        ) implies is_kept_node(told.nodes, file, tree, j, Some(ptr_id(tree[p]))) by {
        lemma_in_lineage(tree, i, j);
        let k = choose|k: int| 0 <= k < rows.len() && rows[k] == j;
        if k > 0 {
            assert(goes_down(tree, rows, k));
            lemma_one_parent(tree, p, rows[k - 1], j);
        }
        assert(kept_in(told.nodes, file, tree, rows, k));
    }
}

/// Every node that a row stands in is in its lineage.
proof fn lemma_in_lineage(tree: Seq<SyntaxView>, i: int, j: int)
    requires
        is_tree(tree),
        0 <= i < tree.len(),
        !tree[i].is_token,
        inside(tree, j, i),
    ensures
        lineage(tree, i).contains(j),
    decreases i,
{
    lemma_lineage(tree, i);
    let rows = lineage(tree, i);
    if i == j {
        assert(rows[rows.len() - 1] == i);
    } else {
        lemma_parent_row(tree, i, i - 1);
        let p = parent_row(tree, i, i - 1)->0;
        assert(steps_on(tree, p + 1));
        assert(tree[p + 1].depth > tree[p].depth);
        if p < j {
            assert(tree[j].depth > tree[p].depth);
            assert(tree[i].depth > tree[j].depth);
        }
        assert forall|k: int| j < k <= p implies (#[trigger] tree[k]).depth > tree[j].depth by {}
        lemma_in_lineage(tree, p, j);
        let up = lineage(tree, p);
        let k = choose|k: int| 0 <= k < up.len() && up[k] == j;
        assert(rows =~= up.push(i));
        assert(rows[k] == j);
    }
}

} // verus!
