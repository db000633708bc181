//! Looking up syntax nodes.

use crate::ra::file_id::{EditionedFileId, SourceEdition};
use crate::host::{derived_id, deterministic_stable_id, NodeId};
use crate::ir::stable_id_text;
use crate::ra::host::{
    opt_node, quad_before, span_specificity, specificity, DeterministicRaHost, HostView,
    NodeRecord, NodeRecordView,
};
use crate::ra::kinds::NodeKind;
use crate::ra::lookup_store::{LocalFile, LookupStore, StoreView};
use crate::ra::lookups::keep_span;
use crate::ra::seeding::{with_place, FileView};
use crate::ra::source::{
    indexable, key_in_text, lookup_span_key_from_text, place_text, place_to_text, range_text,
    range_to_text, span_id_of, span_of_place,
};
use crate::ra::syntax::{parse_tree, parsed_tree, tree_view, Class, SyntaxRow, SyntaxView};
use crate::text::{cat2, str_eq, text_before, text_less};
use vstd::prelude::*;

verus! {

/// What a node of a syntax kind is.
pub open spec fn kind_of_syntax(kind: Seq<char>) -> NodeKind {
    if kind == "IF_EXPR"@ {
        NodeKind::If
    } else if kind == "MATCH_EXPR"@ {
        NodeKind::Match
    } else if kind == "WHILE_EXPR"@ {
        NodeKind::While
    } else if kind == "FOR_EXPR"@ {
        NodeKind::For
    } else if kind == "LOOP_EXPR"@ {
        NodeKind::Loop
    } else if kind == "BLOCK_EXPR"@ {
        NodeKind::Block
    } else if kind == "TRY_EXPR"@ {
        NodeKind::Try
    } else if kind == "MATCH_ARM"@ {
        NodeKind::Arm
    } else if Class::Item.kinds().contains(kind) {
        NodeKind::Item
    } else if Class::Expr.kinds().contains(kind) {
        NodeKind::Expr
    } else {
        NodeKind::Other
    }
}

/// What a node of a syntax kind is.
pub fn syntax_node_kind(kind: &str) -> (r: NodeKind)
    ensures
        r == kind_of_syntax(kind@),
{
    if str_eq(kind, "IF_EXPR") {
        NodeKind::If
    } else if str_eq(kind, "MATCH_EXPR") {
        NodeKind::Match
    } else if str_eq(kind, "WHILE_EXPR") {
        NodeKind::While
    } else if str_eq(kind, "FOR_EXPR") {
        NodeKind::For
    } else if str_eq(kind, "LOOP_EXPR") {
        NodeKind::Loop
    } else if str_eq(kind, "BLOCK_EXPR") {
        NodeKind::Block
    } else if str_eq(kind, "TRY_EXPR") {
        NodeKind::Try
    } else if str_eq(kind, "MATCH_ARM") {
        NodeKind::Arm
    } else if Class::Item.admits(kind) {
        NodeKind::Item
    } else if Class::Expr.admits(kind) {
        NodeKind::Expr
    } else {
        NodeKind::Other
    }
}

/// The first node from `from` on directly below row `i`.
pub open spec fn node_from(tree: Seq<SyntaxView>, i: int, from: int) -> Option<int>
    decreases tree.len() - from,
{
    if i < 0 || i >= from || from >= tree.len() || tree[from].depth <= tree[i].depth {
        None
    } else if tree[from].depth == tree[i].depth + 1 && !tree[from].is_token {
        Some(from)
    } else {
        node_from(tree, i, from + 1)
    }
}

/// The first node from `from` on directly below row `i`.
pub fn next_node(tree: &Vec<SyntaxRow>, i: usize, from: usize) -> (r: Option<usize>)
    requires
        i < from,
        i < tree.len(),
    ensures
        match r {
            Some(j) => node_from(tree_view(tree@), i as int, from as int) == Some(j as int) && from
                <= j < tree@.len(),
            None => node_from(tree_view(tree@), i as int, from as int) is None,
        },
{
    let mut j: usize = from;
    let ghost view = tree_view(tree@);
    while j < tree.len()
        invariant
            view == tree_view(tree@),
            i < from <= j,
            i < tree@.len(),
            node_from(view, i as int, from as int) == node_from(view, i as int, j as int),
        decreases tree.len() - j,
    {
        proof {
            assert(view[j as int] == tree@[j as int]@);
            assert(view[i as int] == tree@[i as int]@);
        }
        if tree[j].depth <= tree[i].depth {
            return None;
        }
        if tree[j].depth - 1 == tree[i].depth && !tree[j].is_token {
            return Some(j);
        }
        j += 1;
    }
    None
}

/// The token of the node at a row.
pub open spec fn node_token(rel_path: Seq<char>, row: SyntaxView) -> Seq<char> {
    place_text(rel_path, row.start, row.end) + ":"@ + row.kind
}

/// The id of the node at a row.
pub open spec fn node_id_of(rel_path: Seq<char>, row: SyntaxView) -> u64 {
    derived_id("node"@, node_token(rel_path, row))
}

/// The index told of the node at row `i` alone.
pub open spec fn with_one_node(
    host: HostView,
    file: FileView,
    row: SyntaxView,
    parent: Option<u64>,
) -> HostView {
    let placed = with_place(host, file, row.start, row.end);
    let id = node_id_of(file.rel_path, row);
    HostView {
        node_keys: placed.node_keys.insert(id, "node:"@ + node_token(file.rel_path, row)),
        nodes: placed.nodes.insert(
            id,
            NodeRecordView {
                kind: kind_of_syntax(row.kind),
                span: span_id_of(file.file_id, row.start, row.end),
                parent,
            },
        ),
        ..placed
    }
}

/// The index told of the node at row `i` and the nodes in it.
pub open spec fn with_node_at(
    host: HostView,
    file: FileView,
    tree: Seq<SyntaxView>,
    i: int,
    parent: Option<u64>,
) -> HostView
    decreases tree.len() - i, 0nat,
{
    if 0 <= i < tree.len() {
        let row = tree[i];
        if key_in_text(file.rel_path, file.source, row.start, row.end) is Some {
            with_nodes_below(
                with_one_node(host, file, row, parent),
                file,
                tree,
                i,
                i + 1,
                Some(node_id_of(file.rel_path, row)),
            )
        } else {
            with_nodes_below(host, file, tree, i, i + 1, parent)
        }
    } else {
        host
    }
}

/// The index told of the nodes below row `i`, from row `from` on.
pub open spec fn with_nodes_below(
    host: HostView,
    file: FileView,
    tree: Seq<SyntaxView>,
    i: int,
    from: int,
    parent: Option<u64>,
) -> HostView
    decreases tree.len() - from, 1nat,
{
    match node_from(tree, i, from) {
        Some(j) => if from <= j < tree.len() {
            with_nodes_below(
                with_node_at(host, file, tree, j, parent),
                file,
                tree,
                i,
                j + 1,
                parent,
            )
        } else {
            host
        },
        None => host,
    }
}

/// The token of the node at a row.
fn node_token_of(rel_path: &str, row: &SyntaxRow) -> (r: String)
    ensures
        r@ == node_token(rel_path@, row@),
{
    let mut out = place_to_text(rel_path, row.start, row.end);
    out.append(":");
    out.append(row.kind.as_str());
    out
}

/// What a file says.
pub open spec fn local_view(local: LocalFile) -> FileView {
    FileView { file_id: local.file_id, rel_path: local.rel_path@, source: local.text@ }
}

/// Tells the node at row `i` and the nodes in it. A node whose range is none of
/// the source is left out; the nodes in it become its parent's.
pub fn record_syntax_node(
    host: &mut DeterministicRaHost,
    local: &LocalFile,
    file_id: EditionedFileId,
    tree: &Vec<SyntaxRow>,
    i: usize,
    parent: Option<NodeId>,
)
    requires
        old(host).wf(),
        indexable(local.text@),
        i < tree.len(),
    ensures
        final(host).wf(),
        final(host)@ == with_node_at(
            old(host)@,
            FileView { file_id, rel_path: local.rel_path@, source: local.text@ },
            tree_view(tree@),
            i as int,
            opt_node(parent),
        ),
    decreases tree.len() - i, 0nat,
{
    let ghost view = tree_view(tree@);
    let row = &tree[i];
    assert(view[i as int] == row@);
    match host.intern_span_from_text(
        file_id,
        local.rel_path.as_str(),
        local.text.as_str(),
        row.start,
        row.end,
    ) {
        Ok(span) => {
            let token = node_token_of(local.rel_path.as_str(), row);
            let node = NodeId::new(deterministic_stable_id("node", token.as_str()));
            host.insert_node_id(node, cat2("node:", token.as_str()).as_str());
            host.insert_node(node, syntax_node_kind(row.kind.as_str()), span, parent);
            record_nodes_below(host, local, file_id, tree, i, Some(node));
        },
        Err(_) => {
            record_nodes_below(host, local, file_id, tree, i, parent);
        },
    }
}

/// Tells the nodes below row `i`.
fn record_nodes_below(
    host: &mut DeterministicRaHost,
    local: &LocalFile,
    file_id: EditionedFileId,
    tree: &Vec<SyntaxRow>,
    i: usize,
    parent: Option<NodeId>,
)
    requires
        old(host).wf(),
        indexable(local.text@),
        i < tree.len(),
    ensures
        final(host).wf(),
        final(host)@ == with_nodes_below(
            old(host)@,
            FileView { file_id, rel_path: local.rel_path@, source: local.text@ },
            tree_view(tree@),
            i as int,
            i + 1,
            opt_node(parent),
        ),
    decreases tree.len() - i - 1, 1nat,
{
    let ghost view = tree_view(tree@);
    let ghost file = FileView { file_id, rel_path: local.rel_path@, source: local.text@ };
    let ghost start = host@;
    let mut from: usize = i + 1;
    loop
        invariant
            view == tree_view(tree@),
            file == (FileView { file_id, rel_path: local.rel_path@, source: local.text@ }),
            start == old(host)@,
            indexable(local.text@),
            i < from <= tree.len(),
            host.wf(),
            with_nodes_below(start, file, view, i as int, i + 1, opt_node(parent))
                == with_nodes_below(
                host@,
                file,
                view,
                i as int,
                from as int,
                opt_node(parent),
            ),
        decreases tree.len() - from,
    {
        match next_node(tree, i, from) {
            Some(j) => {
                record_syntax_node(host, local, file_id, tree, j, parent);
                from = j + 1;
            },
            None => {
                return;
            },
        }
    }
}

/// The index told of the nodes of the first `count` files, each read in the
/// current edition.
pub open spec fn with_file_nodes(host: HostView, files: Seq<LocalFile>, count: nat) -> HostView
    decreases count,
{
    if count == 0 {
        host
    } else {
        let file = files[count - 1];
        with_node_at(
            with_file_nodes(host, files, (count - 1) as nat),
            FileView {
                file_id: file.file_id.renewed(),
                rel_path: file.rel_path@,
                source: file.text@,
            },
            parsed_tree(file.text@, SourceEdition::newest()),
            0,
            None,
        )
    }
}

/// Tells the nodes of files, each read in the current edition.
pub fn extract_syntax_nodes(host: &mut DeterministicRaHost, files: &Vec<LocalFile>)
    requires
        old(host).wf(),
        forall|i: int| 0 <= i < files@.len() ==> indexable((#[trigger] files@[i]).text@),
    ensures
        final(host).wf(),
        final(host)@ == with_file_nodes(old(host)@, files@, files@.len()),
{
    let ghost start = host@;
    let mut i: usize = 0;
    while i < files.len()
        invariant
            host.wf(),
            start == old(host)@,
            i <= files@.len(),
            forall|k: int| 0 <= k < files@.len() ==> indexable((#[trigger] files@[k]).text@),
            host@ == with_file_nodes(start, files@, i as nat),
        decreases files.len() - i,
    {
        let file = &files[i];
        let tree = parse_tree(file.text.as_str(), SourceEdition::current());
        assert(tree_view(tree@).len() == tree@.len());
        if tree.len() > 0 {
            record_syntax_node(host, file, file.file_id.in_current_edition(), &tree, 0, None);
        }
        i += 1;
    }
}

/// The id of a node by its kind and range.
pub open spec fn ptr_id(row: SyntaxView) -> u64 {
    derived_id("node_ptr"@, row.kind + "@"@ + range_text(row.start, row.end))
}

/// The stable key of a node by its kind and range.
pub open spec fn ptr_key(row: SyntaxView) -> Seq<char> {
    "node_id:"@ + stable_id_text(ptr_id(row))
}

/// The id of a node by its kind and range.
pub fn intern_node_from_syntax_row(row: &SyntaxRow) -> (r: NodeId)
    ensures
        r@ == ptr_id(row@),
{
    let mut token = cat2(row.kind.as_str(), "@");
    token.append(range_to_text(row.start, row.end).as_str());
    NodeId::new(deterministic_stable_id("node_ptr", token.as_str()))
}

/// The range lies around the asked one, and is one of the source.
pub open spec fn is_around(
    file: FileView,
    row: SyntaxView,
    start: nat,
    end: nat,
) -> bool {
    row.start <= start && row.end >= end && key_in_text(
        file.rel_path,
        file.source,
        row.start,
        row.end,
    ) is Some
}

/// The nodes from row `i` down that lie around the asked range.
pub open spec fn nodes_around(
    file: FileView,
    tree: Seq<SyntaxView>,
    i: int,
    start: nat,
    end: nat,
) -> Seq<int>
    decreases tree.len() - i, 0nat,
{
    if 0 <= i < tree.len() && is_around(file, tree[i], start, end) {
        seq![i] + nodes_around_below(file, tree, i, i + 1, start, end)
    } else {
        Seq::empty()
    }
}

/// The nodes below row `i`, from row `from` on, that lie around the asked range.
pub open spec fn nodes_around_below(
    file: FileView,
    tree: Seq<SyntaxView>,
    i: int,
    from: int,
    start: nat,
    end: nat,
) -> Seq<int>
    decreases tree.len() - from, 1nat,
{
    match node_from(tree, i, from) {
        Some(j) => if from <= j < tree.len() {
            nodes_around(file, tree, j, start, end) + nodes_around_below(
                file,
                tree,
                i,
                j + 1,
                start,
                end,
            )
        } else {
            Seq::empty()
        },
        None => Seq::empty(),
    }
}

/// One row is a closer answer than another.
pub open spec fn row_closer(file: FileView, a: SyntaxView, b: SyntaxView) -> bool {
    let x = specificity(key_in_text(file.rel_path, file.source, a.start, a.end)->0);
    let y = specificity(key_in_text(file.rel_path, file.source, b.start, b.end)->0);
    quad_before(x, y) || (x == y && text_before(ptr_key(a), ptr_key(b)))
}

/// The closest of rows, the first of them where several are as close.
pub open spec fn closest(file: FileView, tree: Seq<SyntaxView>, rows: Seq<int>) -> Option<int>
    decreases rows.len(),
{
    if rows.len() == 0 {
        None
    } else {
        match closest(file, tree, rows.drop_last()) {
            Some(best) => if row_closer(file, tree[rows.last()], tree[best]) {
                Some(rows.last())
            } else {
                Some(best)
            },
            None => Some(rows.last()),
        }
    }
}

/// Rows as numbers.
pub open spec fn row_numbers(rows: Seq<usize>) -> Seq<int> {
    rows.map_values(|row: usize| row as int)
}

/// The nodes from row `i` down that lie around the asked range.
pub fn collect_containing_nodes(
    local: &LocalFile,
    tree: &Vec<SyntaxRow>,
    i: usize,
    start: usize,
    end: usize,
    out: &mut Vec<usize>,
)
    requires
        indexable(local.text@),
        i < tree.len(),
        forall|k: int| 0 <= k < old(out)@.len() ==> (#[trigger] old(out)@[k]) < tree.len(),
    ensures
        forall|k: int| 0 <= k < final(out)@.len() ==> (#[trigger] final(out)@[k]) < tree.len(),
        row_numbers(final(out)@) == row_numbers(old(out)@) + nodes_around(
            local_view(*local),
            tree_view(tree@),
            i as int,
            start as nat,
            end as nat,
        ),
    decreases tree.len() - i,
{
    let ghost view = tree_view(tree@);
    let ghost file = local_view(*local);
    let ghost before = row_numbers(out@);
    let row = &tree[i];
    assert(view[i as int] == row@);
    let around = row.start as usize <= start && row.end as usize >= end
        && lookup_span_key_from_text(
        local.rel_path.as_str(),
        local.text.as_str(),
        row.start,
        row.end,
    ).is_some();
    if !around {
        assert(before =~= before + Seq::<int>::empty());
        return;
    }
    out.push(i);
    let mut from: usize = i + 1;
    proof {
        assert(row_numbers(out@) =~= before.push(i as int));
        let rest = nodes_around_below(file, view, i as int, i + 1, start as nat, end as nat);
        assert(row_numbers(out@) + rest =~= before + (seq![i as int] + rest));
    }
    loop
        invariant
            view == tree_view(tree@),
            file == local_view(*local),
            indexable(local.text@),
            i < from <= tree.len(),
            forall|k: int| 0 <= k < out@.len() ==> (#[trigger] out@[k]) < tree.len(),
            row_numbers(out@) + nodes_around_below(
                file,
                view,
                i as int,
                from as int,
                start as nat,
                end as nat,
            ) == before + nodes_around(file, view, i as int, start as nat, end as nat),
            before == row_numbers(old(out)@),
        decreases tree.len() - from,
    {
        match next_node(tree, i, from) {
            Some(j) => {
                let ghost held = row_numbers(out@);
                collect_containing_nodes(local, tree, j, start, end, out);
                proof {
                    let inner = nodes_around(file, view, j as int, start as nat, end as nat);
                    let rest = nodes_around_below(
                        file,
                        view,
                        i as int,
                        j + 1,
                        start as nat,
                        end as nat,
                    );
                    assert((held + inner) + rest =~= held + (inner + rest));
                }
                from = j + 1;
            },
            None => {
                assert(row_numbers(out@) =~= row_numbers(out@) + Seq::<int>::empty());
                return;
            },
        }
    }
}

/// Whether one row is a closer answer than another.
fn row_is_closer(local: &LocalFile, a: &SyntaxRow, b: &SyntaxRow) -> (r: bool)
    requires
        indexable(local.text@),
        key_in_text(local.rel_path@, local.text@, a.start, a.end) is Some,
        key_in_text(local.rel_path@, local.text@, b.start, b.end) is Some,
    ensures
        r == row_closer(local_view(*local), a@, b@),
{
    let first = lookup_span_key_from_text(
        local.rel_path.as_str(),
        local.text.as_str(),
        a.start,
        a.end,
    );
    let second = lookup_span_key_from_text(
        local.rel_path.as_str(),
        local.text.as_str(),
        b.start,
        b.end,
    );
    match (first, second) {
        (Some(x), Some(y)) => {
            let p = span_specificity(&x);
            let q = span_specificity(&y);
            if p.0 != q.0 {
                return p.0 < q.0;
            }
            if p.1 != q.1 {
                return p.1 < q.1;
            }
            if p.2 != q.2 {
                return p.2 < q.2;
            }
            if p.3 != q.3 {
                return p.3 < q.3;
            }
            let k = cat2("node_id:", intern_node_from_syntax_row(a).stable_id().to_text().as_str());
            let m = cat2("node_id:", intern_node_from_syntax_row(b).stable_id().to_text().as_str());
            text_less(k.as_str(), m.as_str())
        },
        _ => false,
    }
}

/// What the collected rows have in common: each lies around the asked range.
proof fn lemma_around(
    file: FileView,
    tree: Seq<SyntaxView>,
    i: int,
    start: nat,
    end: nat,
)
    ensures
        forall|k: int|
            0 <= k < nodes_around(file, tree, i, start, end).len() ==> is_around(
                file,
                tree[#[trigger] nodes_around(file, tree, i, start, end)[k]],
                start,
                end,
            ),
    decreases tree.len() - i, 0nat,
{
    if 0 <= i < tree.len() && is_around(file, tree[i], start, end) {
        lemma_around_below(file, tree, i, i + 1, start, end);
        let below = nodes_around_below(file, tree, i, i + 1, start, end);
        let all = nodes_around(file, tree, i, start, end);
        assert forall|k: int| 0 <= k < all.len() implies is_around(
            file,
            tree[#[trigger] all[k]],
            start,
            end,
        ) by {
            if k > 0 {
                assert(all[k] == below[k - 1]);
            }
        }
    }
}

proof fn lemma_around_below(
    file: FileView,
    tree: Seq<SyntaxView>,
    i: int,
    from: int,
    start: nat,
    end: nat,
)
    ensures
        forall|k: int|
            0 <= k < nodes_around_below(file, tree, i, from, start, end).len() ==> is_around(
                file,
                tree[#[trigger] nodes_around_below(file, tree, i, from, start, end)[k]],
                start,
                end,
            ),
    decreases tree.len() - from, 1nat,
{
    match node_from(tree, i, from) {
        Some(j) => {
            if from <= j < tree.len() {
                lemma_around(file, tree, j, start, end);
                lemma_around_below(file, tree, i, j + 1, start, end);
                let first = nodes_around(file, tree, j, start, end);
                let rest = nodes_around_below(file, tree, i, j + 1, start, end);
                let all = nodes_around_below(file, tree, i, from, start, end);
                assert forall|k: int| 0 <= k < all.len() implies is_around(
                    file,
                    tree[#[trigger] all[k]],
                    start,
                    end,
                ) by {
                    if k < first.len() {
                        assert(all[k] == first[k]);
                    } else {
                        assert(all[k] == rest[k - first.len()]);
                    }
                }
            }
        },
        None => {},
    }
}

/// The row of the closest node around a range of the file.
pub open spec fn node_row_at(
    file: FileView,
    tree: Seq<SyntaxView>,
    start: nat,
    end: nat,
) -> Option<int> {
    closest(file, tree, nodes_around(file, tree, 0, start, end))
}

/// The row of the closest node around a range of the file.
pub fn closest_node(local: &LocalFile, tree: &Vec<SyntaxRow>, start: usize, end: usize) -> (r:
    Option<usize>)
    requires
        indexable(local.text@),
    ensures
        match r {
            Some(row) => row < tree.len() && node_row_at(
                local_view(*local),
                tree_view(tree@),
                start as nat,
                end as nat,
            ) == Some(row as int),
            None => node_row_at(
                local_view(*local),
                tree_view(tree@),
                start as nat,
                end as nat,
            ) is None,
        },
{
    let ghost view = tree_view(tree@);
    let ghost file = local_view(*local);
    let mut rows: Vec<usize> = Vec::new();
    if tree.len() == 0 {
        assert(view.len() == 0);
        return None;
    }
    collect_containing_nodes(local, tree, 0, start, end, &mut rows);
    let ghost all = nodes_around(file, view, 0, start as nat, end as nat);
    proof {
        assert(row_numbers(Seq::<usize>::empty()) + all =~= all);
        assert(row_numbers(rows@) =~= all);
        lemma_around(file, view, 0, start as nat, end as nat);
    }
    let mut best: Option<usize> = None;
    let mut i: usize = 0;
    while i < rows.len()
        invariant
            view == tree_view(tree@),
            file == local_view(*local),
            indexable(local.text@),
            i <= rows@.len(),
            all == row_numbers(rows@),
            forall|k: int| 0 <= k < rows@.len() ==> (#[trigger] rows@[k]) < tree.len(),
            forall|k: int|
                0 <= k < all.len() ==> is_around(
                    file,
                    view[#[trigger] all[k]],
                    start as nat,
                    end as nat,
                ),
            match best {
                Some(row) => row < tree.len() && closest(file, view, all.take(i as int)) == Some(
                    row as int,
                ) && is_around(file, view[row as int], start as nat, end as nat),
                None => closest(file, view, all.take(i as int)) is None,
            },
        decreases rows.len() - i,
    {
        let row = rows[i];
        proof {
            let longer = all.take(i + 1);
            assert(longer.drop_last() =~= all.take(i as int));
            assert(longer.last() == all[i as int]);
            assert(all[i as int] == row as int);
            assert(view[row as int] == tree@[row as int]@);
        }
        match best {
            Some(held) => {
                assert(view[held as int] == tree@[held as int]@);
                if row_is_closer(local, &tree[row], &tree[held]) {
                    best = Some(row);
                }
            },
            None => {
                best = Some(row);
            },
        }
        i += 1;
    }
    assert(all.take(i as int) =~= all);
    best
}

/// The nearest row before row `i` that lies less deep: its parent.
pub open spec fn parent_row(tree: Seq<SyntaxView>, i: int, from: int) -> Option<int>
    decreases from + 1,
{
    if from < 0 || i < 0 || i >= tree.len() || from >= i {
        None
    } else if tree[from].depth < tree[i].depth {
        Some(from)
    } else {
        parent_row(tree, i, from - 1)
    }
}

/// The rows from the root to row `i`.
pub open spec fn lineage(tree: Seq<SyntaxView>, i: int) -> Seq<int>
    decreases i,
{
    match parent_row(tree, i, i - 1) {
        Some(parent) => if 0 <= parent < i {
            lineage(tree, parent).push(i)
        } else {
            seq![i]
        },
        None => seq![i],
    }
}

/// The rows from the root to row `i`.
fn lineage_of(tree: &Vec<SyntaxRow>, i: usize) -> (r: Vec<usize>)
    requires
        i < tree.len(),
    ensures
        row_numbers(r@) == lineage(tree_view(tree@), i as int),
        forall|k: int| 0 <= k < r@.len() ==> (#[trigger] r@[k]) < tree.len(),
        r@.len() > 0,
    decreases i,
{
    let ghost view = tree_view(tree@);
    let mut j: usize = i;
    while j > 0
        invariant
            view == tree_view(tree@),
            i < tree@.len(),
            j <= i,
            parent_row(view, i as int, i - 1) == parent_row(view, i as int, j - 1),
        decreases j,
    {
        proof {
            assert(view[i as int] == tree@[i as int]@);
            assert(view[j - 1] == tree@[j - 1]@);
        }
        if tree[j - 1].depth < tree[i].depth {
            let mut rows = lineage_of(tree, j - 1);
            let ghost before = row_numbers(rows@);
            rows.push(i);
            assert(row_numbers(rows@) =~= before.push(i as int));
            return rows;
        }
        j -= 1;
    }
    let mut rows: Vec<usize> = Vec::new();
    rows.push(i);
    proof {
        assert(row_numbers(rows@) =~= seq![i as int]);
    }
    rows
}

/// The store told of the first `count` nodes of a lineage, and the last of them;
/// nothing where one is no range of the source.
pub open spec fn with_lineage(
    store: StoreView,
    file: FileView,
    tree: Seq<SyntaxView>,
    rows: Seq<int>,
    count: nat,
) -> (StoreView, Option<Option<u64>>)
    decreases count,
{
    if count == 0 {
        (store, Some(None))
    } else {
        let (told, last) = with_lineage(store, file, tree, rows, (count - 1) as nat);
        match last {
            Some(parent) => {
                let row = tree[rows[count - 1]];
                match key_in_text(file.rel_path, file.source, row.start, row.end) {
                    Some(key) => {
                        let span = span_id_of(file.file_id, row.start, row.end);
                        let placed = told.with_new_span(span, key);
                        (
                            StoreView {
                                nodes: placed.nodes.insert(
                                    ptr_id(row),
                                    NodeRecordView {
                                        kind: kind_of_syntax(row.kind),
                                        span,
                                        parent,
                                    },
                                ),
                                ..placed
                            },
                            Some(Some(ptr_id(row))),
                        )
                    },
                    None => (told, None),
                }
            },
            None => (told, None),
        }
    }
}

/// The store told of the nodes from the root to row `i`.
pub open spec fn with_all_lineage(
    store: StoreView,
    file: FileView,
    tree: Seq<SyntaxView>,
    i: int,
) -> (StoreView, Option<u64>) {
    let rows = lineage(tree, i);
    let (told, last) = with_lineage(store, file, tree, rows, rows.len());
    (
        told,
        match last {
            Some(node) => node,
            None => None,
        },
    )
}

/// Once a node of the lineage is no range of the source nothing is told any
/// more.
proof fn lemma_lineage_stops(
    store: StoreView,
    file: FileView,
    tree: Seq<SyntaxView>,
    rows: Seq<int>,
    count: nat,
    more: nat,
)
    requires
        count <= more,
        with_lineage(store, file, tree, rows, count).1 is None,
    ensures
        with_lineage(store, file, tree, rows, more) == with_lineage(
            store,
            file,
            tree,
            rows,
            count,
        ),
    decreases more,
{
    if count < more {
        lemma_lineage_stops(store, file, tree, rows, count, (more - 1) as nat);
    }
}

/// Keeps the nodes from the root to row `i`.
pub fn cache_lookup_node_lineage(
    store: &mut LookupStore,
    local: &LocalFile,
    tree: &Vec<SyntaxRow>,
    i: usize,
) -> (r: Option<NodeId>)
    requires
        old(store).wf(),
        indexable(local.text@),
        i < tree.len(),
    ensures
        final(store).wf(),
        (final(store)@, opt_node(r)) == with_all_lineage(
            old(store)@,
            local_view(*local),
            tree_view(tree@),
            i as int,
        ),
{
    let ghost view = tree_view(tree@);
    let ghost file = local_view(*local);
    let ghost start = store@;
    let rows = lineage_of(tree, i);
    let ghost all = row_numbers(rows@);
    let mut parent: Option<NodeId> = None;
    let mut k: usize = 0;
    while k < rows.len()
        invariant
            view == tree_view(tree@),
            file == local_view(*local),
            start == old(store)@,
            indexable(local.text@),
            all == row_numbers(rows@),
            all == lineage(view, i as int),
            k <= rows@.len(),
            store.wf(),
            forall|m: int| 0 <= m < rows@.len() ==> (#[trigger] rows@[m]) < tree.len(),
            (store@, Some(opt_node(parent))) == with_lineage(start, file, view, all, k as nat),
        decreases rows.len() - k,
    {
        let row = &tree[rows[k]];
        proof {
            assert(all[k as int] == rows@[k as int] as int);
            assert(view[rows@[k as int] as int] == row@);
        }
        let key = match lookup_span_key_from_text(
            local.rel_path.as_str(),
            local.text.as_str(),
            row.start,
            row.end,
        ) {
            Some(key) => key,
            None => {
                proof {
                    lemma_lineage_stops(start, file, view, all, (k + 1) as nat, all.len());
                }
                return None;
            },
        };
        let span = span_of_place(local.file_id, row.start, row.end);
        keep_span(store, span, &key);
        let node = intern_node_from_syntax_row(row);
        store.nodes.insert(
            node.stable_id().as_u64(),
            NodeRecord { kind: syntax_node_kind(row.kind.as_str()), span, parent },
        );
        parent = Some(node);
        k += 1;
    }
    parent
}

} // verus!
