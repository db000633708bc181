//! Walking up the syntax tree.

use crate::ra::file_id::{EditionedFileId, SourceEdition};
use crate::ra::core_build::opt_row;
use crate::ra::core_index::opt_str;
use crate::ra::node_lookup::parent_row;
use crate::ra::rows::opt_text;
use crate::ra::seed_types::{collect_path_segments, path_names};
use crate::ra::snapshot_text::slashed;
use crate::ra::syntax::{tree_view, Class, SyntaxRow, SyntaxView};
use crate::search::replace_char;
use crate::text::{join_strings, joined, texts};
use vstd::prelude::*;

verus! {

/// The nearest node of the class from row `i` up.
pub open spec fn nearest(tree: Seq<SyntaxView>, i: int, class: Class) -> Option<int>
    decreases i,
{
    if i < 0 || i >= tree.len() {
        None
    } else if !tree[i].is_token && class.kinds().contains(tree[i].kind) {
        Some(i)
    } else {
        match parent_row(tree, i, i - 1) {
            Some(j) => if 0 <= j < i {
                nearest(tree, j, class)
            } else {
                None
            },
            None => None,
        }
    }
}

/// The nearest node of the class from row `i` up.
pub fn nearest_node(tree: &Vec<SyntaxRow>, i: usize, class: Class) -> (r: Option<usize>)
    requires
        i < tree.len(),
    ensures
        opt_row(r) == nearest(tree_view(tree@), i as int, class),
        r is Some ==> r->0 <= i,
    decreases i,
{
    let ghost view = tree_view(tree@);
    assert(view[i as int] == tree@[i as int]@);
    if !tree[i].is_token && class.admits(tree[i].kind.as_str()) {
        return Some(i);
    }
    let mut j: usize = i;
    while j > 0
        invariant
            view == tree_view(tree@),
            i < tree@.len(),
            j <= i,
            nearest(view, i as int, class) == match parent_row(view, i as int, j - 1) {
                Some(p) => if 0 <= p < i {
                    nearest(view, p, class)
                } else {
                    None
                },
                None => None,
            },
        decreases j,
    {
        proof {
            assert(view[i as int] == tree@[i as int]@);
            assert(view[j - 1] == tree@[j - 1]@);
        }
        if tree[j - 1].depth < tree[i].depth {
            return nearest_node(tree, j - 1, class);
        }
        j -= 1;
    }
    None
}

/// The function that row `i` stands in.
pub fn enclosing_fn(tree: &Vec<SyntaxRow>, i: usize) -> (r: Option<usize>)
    requires
        i < tree.len(),
    ensures
        opt_row(r) == nearest(tree_view(tree@), i as int, Class::Fn),
{
    nearest_node(tree, i, Class::Fn)
}

/// Whether the item is the nearest around row `i`.
pub fn belongs_to_item(tree: &Vec<SyntaxRow>, i: usize, owner: usize) -> (r: bool)
    requires
        i < tree.len(),
    ensures
        r == (nearest(tree_view(tree@), i as int, Class::Item) == Some(owner as int)),
{
    match nearest_node(tree, i, Class::Item) {
        Some(item) => item == owner,
        None => false,
    }
}

/// The names of a path as text; nothing for a path without names.
pub open spec fn path_text(tree: Seq<SyntaxView>, i: int) -> Option<Seq<char>> {
    if path_names(tree, i).len() == 0 {
        None
    } else {
        Some(joined(path_names(tree, i), "::"@))
    }
}

/// The names of the path at row `i` as text.
pub fn path_to_string(tree: &Vec<SyntaxRow>, i: usize) -> (r: Option<String>)
    requires
        i < tree.len(),
    ensures
        opt_text(r) == path_text(tree_view(tree@), i as int),
{
    let names = collect_path_segments(tree, i);
    assert(texts(names@).len() == names@.len());
    if names.len() == 0 {
        None
    } else {
        Some(join_strings(&names, "::"))
    }
}

/// A module of tests is among the names on the way to the root.
pub open spec fn has_tests(names: Seq<Seq<char>>) -> bool {
    names.contains("tests"@)
}

/// Whether a module of tests is among the names on the way to the root.
pub fn module_is_test_scope(names: &Vec<String>) -> (r: bool)
    ensures
        r == has_tests(texts(names@)),
{
    crate::ra::core_index::holds_text(names, "tests")
}

/// Whether a definition is test code: a test function, or in a module of tests.
pub fn module_def_in_test(is_test_function: bool, names: &Vec<String>) -> (r: bool)
    ensures
        r == (is_test_function || has_tests(texts(names@))),
{
    is_test_function || module_is_test_scope(names)
}

/// The path of a file in answers: below the workspace's root if it lies there.
pub fn local_file_path(in_workspace: Option<&str>, full: &str) -> (r: String)
    ensures
        r@ == match opt_str(in_workspace) {
            Some(rel) => slashed(rel),
            None => slashed(full@),
        },
{
    match in_workspace {
        Some(rel) => replace_char(rel, '\\', '/'),
        None => replace_char(full, '\\', '/'),
    }
}

/// The number of a file that was seeded from its path.
pub open spec fn file_number(path: Seq<char>) -> u32 {
    (crate::host::derived_id("seed_file"@, path) as u32) & 0x007f_ffff
}

/// A file that was seeded from its path.
pub open spec fn seeded_file(path: Seq<char>) -> EditionedFileId {
    EditionedFileId::of(file_number(path), SourceEdition::newest())
}

/// A file that was seeded from its path.
pub fn seeded_file_id(path: &str) -> (r: EditionedFileId)
    ensures
        r == seeded_file(path@),
        r.file() == file_number(path@),
        r.read_in() == SourceEdition::newest(),
{
    let id: u64 = crate::host::deterministic_stable_id("seed_file", path).as_u64();
    #[verifier::truncate]
    let low: u32 = id as u32;
    assert(low & 0x007f_ffff <= 0x007f_ffff) by (bit_vector);
    EditionedFileId::current_edition(low & 0x007f_ffff)
}

} // verus!
