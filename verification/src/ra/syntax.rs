//! The syntax tree of a source file, as rows.

use crate::ra::file_id::SourceEdition;
use crate::text::{str_eq, str_texts};
use ra_ap_syntax::{AstNode, Edition, SourceFile};
use vstd::prelude::*;

verus! {

/// A node or token of a syntax tree. The rows of a tree stand in the order in
/// which a walk enters them, parents before children.
#[derive(Debug, Clone, PartialEq, Eq)]
pub struct SyntaxRow {
    /// The name of the syntax kind.
    pub kind: String,
    pub is_token: bool,
    pub start: u32,
    pub end: u32,
    /// How many nodes lie around this one.
    pub depth: usize,
    pub text: String,
}

/// What a row says.
pub struct SyntaxView {
    pub kind: Seq<char>,
    pub is_token: bool,
    pub start: u32,
    pub end: u32,
    pub depth: int,
    pub text: Seq<char>,
}

impl View for SyntaxRow {
    type V = SyntaxView;

    open spec fn view(&self) -> SyntaxView {
        SyntaxView {
            kind: self.kind@,
            is_token: self.is_token,
            start: self.start,
            end: self.end,
            depth: self.depth as int,
            text: self.text@,
        }
    }
}

/// What rows say.
pub open spec fn tree_view(rows: Seq<SyntaxRow>) -> Seq<SyntaxView> {
    rows.map_values(|row: SyntaxRow| row@)
}

/// The rows of the tree that the source parses to in an edition.
pub uninterp spec fn parsed_tree(source: Seq<char>, edition: SourceEdition) -> Seq<SyntaxView>;

/// `SourceFile::parse` of `ra_ap_syntax`, in the edition named, and the walk over
/// the tree it gives: each node and token once, parents first. The tree depends
/// on the source and the edition alone. Offsets of a text of `u32::MAX` bytes or more
/// do not fit the tree.
#[verifier::external_body]
pub(crate) fn parse_tree(source: &str, edition: SourceEdition) -> (r: Vec<SyntaxRow>)
    requires
        crate::ra::source::indexable(source@),
    ensures
        tree_view(r@) == parsed_tree(source@, edition),
{
    let edition = match edition {
        SourceEdition::Edition2015 => Edition::Edition2015,
        SourceEdition::Edition2018 => Edition::Edition2018,
        SourceEdition::Edition2021 => Edition::Edition2021,
        SourceEdition::Edition2024 => Edition::Edition2024,
    };
    let file = SourceFile::parse(source, edition).tree();
    file.syntax().descendants_with_tokens().map(|element| SyntaxRow {
        kind: format!("{:?}", element.kind()),
        is_token: element.as_token().is_some(),
        start: element.text_range().start().into(),
        end: element.text_range().end().into(),
        depth: element.parent().into_iter().flat_map(|node| node.ancestors()).count(),
        text: element.to_string(),
    }).collect()
}

/// A class of syntax nodes.
#[derive(Debug, Clone, Copy, PartialEq, Eq, Structural)]
pub enum Class {
    Name,
    NameRef,
    Visibility,
    Attr,
    RecordField,
    TupleField,
    VariantList,
    Variant,
    AssocItemList,
    ItemList,
    RetType,
    BlockExpr,
    Path,
    PathSegment,
    GenericArgList,
    TypeArg,
    Fn,
    Item,
    Type,
    Expr,
    FieldList,
}

impl Class {
    /// The kinds of the class.
    pub open spec fn kinds(self) -> Seq<Seq<char>> {
        match self {
            Class::Name => seq!["NAME"@],
            Class::NameRef => seq!["NAME_REF"@],
            Class::Visibility => seq!["VISIBILITY"@],
            Class::Attr => seq!["ATTR"@],
            Class::RecordField => seq!["RECORD_FIELD"@],
            Class::TupleField => seq!["TUPLE_FIELD"@],
            Class::VariantList => seq!["VARIANT_LIST"@],
            Class::Variant => seq!["VARIANT"@],
            Class::AssocItemList => seq!["ASSOC_ITEM_LIST"@],
            Class::ItemList => seq!["ITEM_LIST"@],
            Class::RetType => seq!["RET_TYPE"@],
            Class::BlockExpr => seq!["BLOCK_EXPR"@],
            Class::Path => seq!["PATH"@],
            Class::PathSegment => seq!["PATH_SEGMENT"@],
            Class::GenericArgList => seq!["GENERIC_ARG_LIST"@],
            Class::TypeArg => seq!["TYPE_ARG"@],
            Class::Fn => seq!["FN"@],
            Class::Item => seq![
                "ASM_EXPR"@,
                "CONST"@,
                "ENUM"@,
                "EXTERN_BLOCK"@,
                "EXTERN_CRATE"@,
                "FN"@,
                "IMPL"@,
                "MACRO_CALL"@,
                "MACRO_DEF"@,
                "MACRO_RULES"@,
                "MODULE"@,
                "STATIC"@,
                "STRUCT"@,
                "TRAIT"@,
                "TYPE_ALIAS"@,
                "UNION"@,
                "USE"@,
            ],
            Class::Type => seq![
                "ARRAY_TYPE"@,
                "DYN_TRAIT_TYPE"@,
                "FN_PTR_TYPE"@,
                "FOR_TYPE"@,
                "IMPL_TRAIT_TYPE"@,
                "INFER_TYPE"@,
                "MACRO_TYPE"@,
                "NEVER_TYPE"@,
                "PAREN_TYPE"@,
                "PATH_TYPE"@,
                "PTR_TYPE"@,
                "REF_TYPE"@,
                "SLICE_TYPE"@,
                "TUPLE_TYPE"@,
            ],
            Class::Expr => seq![
                "ARRAY_EXPR"@,
                "ASM_EXPR"@,
                "AWAIT_EXPR"@,
                "BECOME_EXPR"@,
                "BIN_EXPR"@,
                "BLOCK_EXPR"@,
                "BREAK_EXPR"@,
                "CALL_EXPR"@,
                "CAST_EXPR"@,
                "CLOSURE_EXPR"@,
                "CONTINUE_EXPR"@,
                "FIELD_EXPR"@,
                "FOR_EXPR"@,
                "FORMAT_ARGS_EXPR"@,
                "IF_EXPR"@,
                "INDEX_EXPR"@,
                "LET_EXPR"@,
                "LITERAL"@,
                "LOOP_EXPR"@,
                "MACRO_EXPR"@,
                "MATCH_EXPR"@,
                "METHOD_CALL_EXPR"@,
                "OFFSET_OF_EXPR"@,
                "PAREN_EXPR"@,
                "PATH_EXPR"@,
                "PREFIX_EXPR"@,
                "RANGE_EXPR"@,
                "RECORD_EXPR"@,
                "REF_EXPR"@,
                "RETURN_EXPR"@,
                "TRY_EXPR"@,
                "TUPLE_EXPR"@,
                "UNDERSCORE_EXPR"@,
                "WHILE_EXPR"@,
                "YEET_EXPR"@,
                "YIELD_EXPR"@,
            ],
            Class::FieldList => seq![
                "RECORD_FIELD_LIST"@,
                "TUPLE_FIELD_LIST"@,
            ],
        }
    }

    /// The kinds of the class.
    fn kind_names(self) -> (r: &'static [&'static str])
        ensures
            str_texts(r@) == self.kinds(),
    {
        match self {
            Class::Name => {
                let names: &'static [&'static str] = &[
                    "NAME",
                ];
                assert(str_texts(names@) =~= self.kinds());
                names
            },
            Class::NameRef => {
                let names: &'static [&'static str] = &[
                    "NAME_REF",
                ];
                assert(str_texts(names@) =~= self.kinds());
                names
            },
            Class::Visibility => {
                let names: &'static [&'static str] = &[
                    "VISIBILITY",
                ];
                assert(str_texts(names@) =~= self.kinds());
                names
            },
            Class::Attr => {
                let names: &'static [&'static str] = &[
                    "ATTR",
                ];
                assert(str_texts(names@) =~= self.kinds());
                names
            },
            Class::RecordField => {
                let names: &'static [&'static str] = &[
                    "RECORD_FIELD",
                ];
                assert(str_texts(names@) =~= self.kinds());
                names
            },
            Class::TupleField => {
                let names: &'static [&'static str] = &[
                    "TUPLE_FIELD",
                ];
                assert(str_texts(names@) =~= self.kinds());
                names
            },
            Class::VariantList => {
                let names: &'static [&'static str] = &[
                    "VARIANT_LIST",
                ];
                assert(str_texts(names@) =~= self.kinds());
                names
            },
            Class::Variant => {
                let names: &'static [&'static str] = &[
                    "VARIANT",
                ];
                assert(str_texts(names@) =~= self.kinds());
                names
            },
            Class::AssocItemList => {
                let names: &'static [&'static str] = &[
                    "ASSOC_ITEM_LIST",
                ];
                assert(str_texts(names@) =~= self.kinds());
                names
            },
            Class::ItemList => {
                let names: &'static [&'static str] = &[
                    "ITEM_LIST",
                ];
                assert(str_texts(names@) =~= self.kinds());
                names
            },
            Class::RetType => {
                let names: &'static [&'static str] = &[
                    "RET_TYPE",
                ];
                assert(str_texts(names@) =~= self.kinds());
                names
            },
            Class::BlockExpr => {
                let names: &'static [&'static str] = &[
                    "BLOCK_EXPR",
                ];
                assert(str_texts(names@) =~= self.kinds());
                names
            },
            Class::Path => {
                let names: &'static [&'static str] = &[
                    "PATH",
                ];
                assert(str_texts(names@) =~= self.kinds());
                names
            },
            Class::PathSegment => {
                let names: &'static [&'static str] = &[
                    "PATH_SEGMENT",
                ];
                assert(str_texts(names@) =~= self.kinds());
                names
            },
            Class::GenericArgList => {
                let names: &'static [&'static str] = &[
                    "GENERIC_ARG_LIST",
                ];
                assert(str_texts(names@) =~= self.kinds());
                names
            },
            Class::TypeArg => {
                let names: &'static [&'static str] = &[
                    "TYPE_ARG",
                ];
                assert(str_texts(names@) =~= self.kinds());
                names
            },
            Class::Fn => {
                let names: &'static [&'static str] = &[
                    "FN",
                ];
                assert(str_texts(names@) =~= self.kinds());
                names
            },
            Class::Item => {
                let names: &'static [&'static str] = &[
                    "ASM_EXPR",
                    "CONST",
                    "ENUM",
                    "EXTERN_BLOCK",
                    "EXTERN_CRATE",
                    "FN",
                    "IMPL",
                    "MACRO_CALL",
                    "MACRO_DEF",
                    "MACRO_RULES",
                    "MODULE",
                    "STATIC",
                    "STRUCT",
                    "TRAIT",
                    "TYPE_ALIAS",
                    "UNION",
                    "USE",
                ];
                assert(str_texts(names@) =~= self.kinds());
                names
            },
            Class::Type => {
                let names: &'static [&'static str] = &[
                    "ARRAY_TYPE",
                    "DYN_TRAIT_TYPE",
                    "FN_PTR_TYPE",
                    "FOR_TYPE",
                    "IMPL_TRAIT_TYPE",
                    "INFER_TYPE",
                    "MACRO_TYPE",
                    "NEVER_TYPE",
                    "PAREN_TYPE",
                    "PATH_TYPE",
                    "PTR_TYPE",
                    "REF_TYPE",
                    "SLICE_TYPE",
                    "TUPLE_TYPE",
                ];
                assert(str_texts(names@) =~= self.kinds());
                names
            },
            Class::Expr => {
                let names: &'static [&'static str] = &[
                    "ARRAY_EXPR",
                    "ASM_EXPR",
                    "AWAIT_EXPR",
                    "BECOME_EXPR",
                    "BIN_EXPR",
                    "BLOCK_EXPR",
                    "BREAK_EXPR",
                    "CALL_EXPR",
                    "CAST_EXPR",
                    "CLOSURE_EXPR",
                    "CONTINUE_EXPR",
                    "FIELD_EXPR",
                    "FOR_EXPR",
                    "FORMAT_ARGS_EXPR",
                    "IF_EXPR",
                    "INDEX_EXPR",
                    "LET_EXPR",
                    "LITERAL",
                    "LOOP_EXPR",
                    "MACRO_EXPR",
                    "MATCH_EXPR",
                    "METHOD_CALL_EXPR",
                    "OFFSET_OF_EXPR",
                    "PAREN_EXPR",
                    "PATH_EXPR",
                    "PREFIX_EXPR",
                    "RANGE_EXPR",
                    "RECORD_EXPR",
                    "REF_EXPR",
                    "RETURN_EXPR",
                    "TRY_EXPR",
                    "TUPLE_EXPR",
                    "UNDERSCORE_EXPR",
                    "WHILE_EXPR",
                    "YEET_EXPR",
                    "YIELD_EXPR",
                ];
                assert(str_texts(names@) =~= self.kinds());
                names
            },
            Class::FieldList => {
                let names: &'static [&'static str] = &[
                    "RECORD_FIELD_LIST",
                    "TUPLE_FIELD_LIST",
                ];
                assert(str_texts(names@) =~= self.kinds());
                names
            },
        }
    }

    /// Whether nodes of the kind belong to the class.
    pub fn admits(self, kind: &str) -> (r: bool)
        ensures
            r == self.kinds().contains(kind@),
    {
        let names = self.kind_names();
        let mut i: usize = 0;
        while i < names.len()
            invariant
                i <= names@.len(),
                str_texts(names@) == self.kinds(),
                forall|k: int| 0 <= k < i ==> (#[trigger] self.kinds()[k]) != kind@,
            decreases names@.len() - i,
        {
            assert(str_texts(names@)[i as int] == names@[i as int]@);
            if str_eq(names[i], kind) {
                assert(self.kinds()[i as int] == kind@);
                return true;
            }
            i += 1;
        }
        false
    }
}

/// Row `j` is a node of the class directly below row `i`.
pub open spec fn is_child(tree: Seq<SyntaxView>, i: int, j: int, class: Class) -> bool {
    tree[j].depth == tree[i].depth + 1 && !tree[j].is_token && class.kinds().contains(tree[j].kind)
}

/// The first row from `from` on that is a child of row `i` of the class.
pub open spec fn child_from(tree: Seq<SyntaxView>, i: int, from: int, class: Class) -> Option<int>
    decreases tree.len() - from,
{
    if i < 0 || i >= from || from >= tree.len() || tree[from].depth <= tree[i].depth {
        None
    } else if is_child(tree, i, from, class) {
        Some(from)
    } else {
        child_from(tree, i, from + 1, class)
    }
}

/// The first child of row `i` of the class.
pub open spec fn child(tree: Seq<SyntaxView>, i: int, class: Class) -> Option<int> {
    child_from(tree, i, i + 1, class)
}

/// The first row from `from` on that is a token of the kind directly below row
/// `i`.
pub open spec fn token_from(tree: Seq<SyntaxView>, i: int, from: int, kind: Seq<char>) -> Option<
    int,
>
    decreases tree.len() - from,
{
    if i < 0 || i >= from || from >= tree.len() || tree[from].depth <= tree[i].depth {
        None
    } else if tree[from].depth == tree[i].depth + 1 && tree[from].is_token && tree[from].kind
        == kind {
        Some(from)
    } else {
        token_from(tree, i, from + 1, kind)
    }
}

/// The first row after the nodes and tokens below row `i`.
pub open spec fn end_from(tree: Seq<SyntaxView>, i: int, from: int) -> int
    decreases tree.len() - from,
{
    if i < 0 || i >= from || from >= tree.len() || tree[from].depth <= tree[i].depth {
        from
    } else {
        end_from(tree, i, from + 1)
    }
}

/// The first row from `from` on that is a child of row `i` of the class.
pub fn next_child(tree: &Vec<SyntaxRow>, i: usize, from: usize, class: Class) -> (r: Option<usize>)
    requires
        i < from,
        i < tree.len(),
    ensures
        match r {
            Some(j) => child_from(tree_view(tree@), i as int, from as int, class) == Some(j as int)
                && from <= j < tree@.len(),
            None => child_from(tree_view(tree@), i as int, from as int, class) is None,
        },
{
    let mut j: usize = from;
    let ghost view = tree_view(tree@);
    while j < tree.len()
        invariant
            view == tree_view(tree@),
            i < from <= j,
            i < tree@.len(),
            child_from(view, i as int, from as int, class) == child_from(
                view,
                i as int,
                j as int,
                class,
            ),
        decreases tree.len() - j,
    {
        proof {
            assert(view[j as int] == tree@[j as int]@);
            assert(view[i as int] == tree@[i as int]@);
        }
        if tree[j].depth <= tree[i].depth {
            return None;
        }
        if tree[j].depth - 1 == tree[i].depth && !tree[j].is_token && class.admits(
            tree[j].kind.as_str(),
        ) {
            return Some(j);
        }
        j += 1;
    }
    None
}

/// The first child of row `i` of the class.
pub fn first_child(tree: &Vec<SyntaxRow>, i: usize, class: Class) -> (r: Option<usize>)
    requires
        i < tree.len(),
    ensures
        match r {
            Some(j) => child(tree_view(tree@), i as int, class) == Some(j as int) && i < j
                < tree@.len(),
            None => child(tree_view(tree@), i as int, class) is None,
        },
{
    next_child(tree, i, i + 1, class)
}

/// The first token of the kind directly below row `i`.
pub fn first_token(tree: &Vec<SyntaxRow>, i: usize, kind: &str) -> (r: Option<usize>)
    requires
        i < tree.len(),
    ensures
        match r {
            Some(j) => token_from(tree_view(tree@), i as int, i + 1, kind@) == Some(j as int) && i
                < j < tree@.len(),
            None => token_from(tree_view(tree@), i as int, i + 1, kind@) is None,
        },
{
    let mut j: usize = i + 1;
    let ghost view = tree_view(tree@);
    while j < tree.len()
        invariant
            view == tree_view(tree@),
            i < j,
            i < tree@.len(),
            token_from(view, i as int, i + 1, kind@) == token_from(view, i as int, j as int, kind@),
        decreases tree.len() - j,
    {
        proof {
            assert(view[j as int] == tree@[j as int]@);
            assert(view[i as int] == tree@[i as int]@);
        }
        if tree[j].depth <= tree[i].depth {
            return None;
        }
        if tree[j].depth - 1 == tree[i].depth && tree[j].is_token && str_eq(
            tree[j].kind.as_str(),
            kind,
        ) {
            return Some(j);
        }
        j += 1;
    }
    None
}

/// The first row after the nodes and tokens below row `i`.
pub fn subtree_end(tree: &Vec<SyntaxRow>, i: usize) -> (r: usize)
    requires
        i < tree.len(),
    ensures
        r == end_from(tree_view(tree@), i as int, i + 1),
        i < r <= tree@.len(),
{
    let mut j: usize = i + 1;
    let ghost view = tree_view(tree@);
    while j < tree.len()
        invariant
            view == tree_view(tree@),
            i < j <= tree@.len(),
            end_from(view, i as int, i + 1) == end_from(view, i as int, j as int),
        decreases tree.len() - j,
    {
        proof {
            assert(view[j as int] == tree@[j as int]@);
            assert(view[i as int] == tree@[i as int]@);
        }
        if tree[j].depth <= tree[i].depth {
            return j;
        }
        j += 1;
    }
    j
}

} // verus!
