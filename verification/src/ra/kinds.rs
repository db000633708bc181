//! The kinds of definitions, syntax nodes and calls.

use crate::text::str_eq;
use vstd::prelude::*;

verus! {

/// What a definition is.
#[derive(Debug, Clone, Copy, PartialEq, Eq, Hash, PartialOrd, Ord, Structural)]
pub enum DefKind {
    Fn,
    Method,
    Struct,
    Enum,
    Union,
    Trait,
    Mod,
    Impl,
    TypeAlias,
    Const,
    Static,
    Field,
    Variant,
    AssocType,
    AssocConst,
    Macro,
    Other,
}

impl DefKind {
    /// The name of the variant in query results.
    pub open spec fn label(self) -> Seq<char> {
        match self {
            DefKind::Fn => "FN"@,
            DefKind::Method => "METHOD"@,
            DefKind::Struct => "STRUCT"@,
            DefKind::Enum => "ENUM"@,
            DefKind::Union => "UNION"@,
            DefKind::Trait => "TRAIT"@,
            DefKind::Mod => "MOD"@,
            DefKind::Impl => "IMPL"@,
            DefKind::TypeAlias => "TYPE_ALIAS"@,
            DefKind::Const => "CONST"@,
            DefKind::Static => "STATIC"@,
            DefKind::Field => "FIELD"@,
            DefKind::Variant => "VARIANT"@,
            DefKind::AssocType => "ASSOC_TYPE"@,
            DefKind::AssocConst => "ASSOC_CONST"@,
            DefKind::Macro => "MACRO"@,
            DefKind::Other => "OTHER"@,
        }
    }

    /// The name of the variant in identity tokens.
    pub open spec fn name(self) -> Seq<char> {
        match self {
            DefKind::Fn => "Fn"@,
            DefKind::Method => "Method"@,
            DefKind::Struct => "Struct"@,
            DefKind::Enum => "Enum"@,
            DefKind::Union => "Union"@,
            DefKind::Trait => "Trait"@,
            DefKind::Mod => "Mod"@,
            DefKind::Impl => "Impl"@,
            DefKind::TypeAlias => "TypeAlias"@,
            DefKind::Const => "Const"@,
            DefKind::Static => "Static"@,
            DefKind::Field => "Field"@,
            DefKind::Variant => "Variant"@,
            DefKind::AssocType => "AssocType"@,
            DefKind::AssocConst => "AssocConst"@,
            DefKind::Macro => "Macro"@,
            DefKind::Other => "Other"@,
        }
    }

    /// The name of the variant in query results.
    pub fn variant_label(self) -> (r: &'static str)
        ensures
            r@ == self.label(),
    {
        match self {
            DefKind::Fn => "FN",
            DefKind::Method => "METHOD",
            DefKind::Struct => "STRUCT",
            DefKind::Enum => "ENUM",
            DefKind::Union => "UNION",
            DefKind::Trait => "TRAIT",
            DefKind::Mod => "MOD",
            DefKind::Impl => "IMPL",
            DefKind::TypeAlias => "TYPE_ALIAS",
            DefKind::Const => "CONST",
            DefKind::Static => "STATIC",
            DefKind::Field => "FIELD",
            DefKind::Variant => "VARIANT",
            DefKind::AssocType => "ASSOC_TYPE",
            DefKind::AssocConst => "ASSOC_CONST",
            DefKind::Macro => "MACRO",
            DefKind::Other => "OTHER",
        }
    }

    /// The name of the variant in identity tokens.
    pub fn variant_name(self) -> (r: &'static str)
        ensures
            r@ == self.name(),
    {
        match self {
            DefKind::Fn => "Fn",
            DefKind::Method => "Method",
            DefKind::Struct => "Struct",
            DefKind::Enum => "Enum",
            DefKind::Union => "Union",
            DefKind::Trait => "Trait",
            DefKind::Mod => "Mod",
            DefKind::Impl => "Impl",
            DefKind::TypeAlias => "TypeAlias",
            DefKind::Const => "Const",
            DefKind::Static => "Static",
            DefKind::Field => "Field",
            DefKind::Variant => "Variant",
            DefKind::AssocType => "AssocType",
            DefKind::AssocConst => "AssocConst",
            DefKind::Macro => "Macro",
            DefKind::Other => "Other",
        }
    }
}

/// The length of a label, its first letter, and its third or else its first.
spec fn def_shape(kind: DefKind) -> (nat, char, char) {
    match kind {
        DefKind::Fn => (2, 'F', 'F'),
        DefKind::Method => (6, 'M', 'T'),
        DefKind::Struct => (6, 'S', 'R'),
        DefKind::Enum => (4, 'E', 'U'),
        DefKind::Union => (5, 'U', 'I'),
        DefKind::Trait => (5, 'T', 'A'),
        DefKind::Mod => (3, 'M', 'D'),
        DefKind::Impl => (4, 'I', 'P'),
        DefKind::TypeAlias => (10, 'T', 'P'),
        DefKind::Const => (5, 'C', 'N'),
        DefKind::Static => (6, 'S', 'A'),
        DefKind::Field => (5, 'F', 'E'),
        DefKind::Variant => (7, 'V', 'R'),
        DefKind::AssocType => (10, 'A', 'S'),
        DefKind::AssocConst => (11, 'A', 'S'),
        DefKind::Macro => (5, 'M', 'C'),
        DefKind::Other => (5, 'O', 'H'),
    }
}

proof fn lemma_def_shape(kind: DefKind)
    ensures
        kind.label().len() == def_shape(kind).0,
        kind.label().len() > 0,
        kind.label()[0] == def_shape(kind).1,
        kind.label()[if kind.label().len() > 2 {
            2
        } else {
            0
        }] == def_shape(kind).2,
{
    match kind {
        DefKind::Fn => {
            reveal_strlit("FN");
        },
        DefKind::Method => {
            reveal_strlit("METHOD");
        },
        DefKind::Struct => {
            reveal_strlit("STRUCT");
        },
        DefKind::Enum => {
            reveal_strlit("ENUM");
        },
        DefKind::Union => {
            reveal_strlit("UNION");
        },
        DefKind::Trait => {
            reveal_strlit("TRAIT");
        },
        DefKind::Mod => {
            reveal_strlit("MOD");
        },
        DefKind::Impl => {
            reveal_strlit("IMPL");
        },
        DefKind::TypeAlias => {
            reveal_strlit("TYPE_ALIAS");
        },
        DefKind::Const => {
            reveal_strlit("CONST");
        },
        DefKind::Static => {
            reveal_strlit("STATIC");
        },
        DefKind::Field => {
            reveal_strlit("FIELD");
        },
        DefKind::Variant => {
            reveal_strlit("VARIANT");
        },
        DefKind::AssocType => {
            reveal_strlit("ASSOC_TYPE");
        },
        DefKind::AssocConst => {
            reveal_strlit("ASSOC_CONST");
        },
        DefKind::Macro => {
            reveal_strlit("MACRO");
        },
        DefKind::Other => {
            reveal_strlit("OTHER");
        },
    }
}

/// No two variants have the same label.
proof fn lemma_defkind_labels(a: DefKind, b: DefKind)
    requires
        a.label() == b.label(),
    ensures
        a == b,
{
    lemma_def_shape(a);
    lemma_def_shape(b);
    assert(def_shape(a) == def_shape(b));
}

/// The kind of definition that a label names.
pub fn def_kind_from_variant(variant: &str) -> (r: Option<DefKind>)
    ensures
        match r {
            Some(kind) => variant@ == kind.label(),
            None => forall|kind: DefKind| variant@ != #[trigger] kind.label(),
        },
{
    if str_eq(variant, "FN") {
        return Some(DefKind::Fn);
    }
    if str_eq(variant, "METHOD") {
        return Some(DefKind::Method);
    }
    if str_eq(variant, "STRUCT") {
        return Some(DefKind::Struct);
    }
    if str_eq(variant, "ENUM") {
        return Some(DefKind::Enum);
    }
    if str_eq(variant, "UNION") {
        return Some(DefKind::Union);
    }
    if str_eq(variant, "TRAIT") {
        return Some(DefKind::Trait);
    }
    if str_eq(variant, "MOD") {
        return Some(DefKind::Mod);
    }
    if str_eq(variant, "IMPL") {
        return Some(DefKind::Impl);
    }
    if str_eq(variant, "TYPE_ALIAS") {
        return Some(DefKind::TypeAlias);
    }
    if str_eq(variant, "CONST") {
        return Some(DefKind::Const);
    }
    if str_eq(variant, "STATIC") {
        return Some(DefKind::Static);
    }
    if str_eq(variant, "FIELD") {
        return Some(DefKind::Field);
    }
    if str_eq(variant, "VARIANT") {
        return Some(DefKind::Variant);
    }
    if str_eq(variant, "ASSOC_TYPE") {
        return Some(DefKind::AssocType);
    }
    if str_eq(variant, "ASSOC_CONST") {
        return Some(DefKind::AssocConst);
    }
    if str_eq(variant, "MACRO") {
        return Some(DefKind::Macro);
    }
    if str_eq(variant, "OTHER") {
        return Some(DefKind::Other);
    }
    None
}

/// What a syntax node is.
#[derive(Debug, Clone, Copy, PartialEq, Eq, Hash, PartialOrd, Ord, Structural)]
pub enum NodeKind {
    If,
    Match,
    While,
    For,
    Loop,
    Block,
    Try,
    Arm,
    Other,
    Expr,
    Item,
}

impl NodeKind {
    /// The name of the variant in query results.
    pub open spec fn label(self) -> Seq<char> {
        match self {
            NodeKind::If => "IF"@,
            NodeKind::Match => "MATCH"@,
            NodeKind::While => "WHILE"@,
            NodeKind::For => "FOR"@,
            NodeKind::Loop => "LOOP"@,
            NodeKind::Block => "BLOCK"@,
            NodeKind::Try => "TRY"@,
            NodeKind::Arm => "ARM"@,
            NodeKind::Other => "OTHER"@,
            NodeKind::Expr => "EXPR"@,
            NodeKind::Item => "ITEM"@,
        }
    }

    /// The name of the variant in identity tokens.
    pub open spec fn name(self) -> Seq<char> {
        match self {
            NodeKind::If => "If"@,
            NodeKind::Match => "Match"@,
            NodeKind::While => "While"@,
            NodeKind::For => "For"@,
            NodeKind::Loop => "Loop"@,
            NodeKind::Block => "Block"@,
            NodeKind::Try => "Try"@,
            NodeKind::Arm => "Arm"@,
            NodeKind::Other => "Other"@,
            NodeKind::Expr => "Expr"@,
            NodeKind::Item => "Item"@,
        }
    }

    /// The name of the variant in query results.
    pub fn variant_label(self) -> (r: &'static str)
        ensures
            r@ == self.label(),
    {
        match self {
            NodeKind::If => "IF",
            NodeKind::Match => "MATCH",
            NodeKind::While => "WHILE",
            NodeKind::For => "FOR",
            NodeKind::Loop => "LOOP",
            NodeKind::Block => "BLOCK",
            NodeKind::Try => "TRY",
            NodeKind::Arm => "ARM",
            NodeKind::Other => "OTHER",
            NodeKind::Expr => "EXPR",
            NodeKind::Item => "ITEM",
        }
    }

    /// The name of the variant in identity tokens.
    pub fn variant_name(self) -> (r: &'static str)
        ensures
            r@ == self.name(),
    {
        match self {
            NodeKind::If => "If",
            NodeKind::Match => "Match",
            NodeKind::While => "While",
            NodeKind::For => "For",
            NodeKind::Loop => "Loop",
            NodeKind::Block => "Block",
            NodeKind::Try => "Try",
            NodeKind::Arm => "Arm",
            NodeKind::Other => "Other",
            NodeKind::Expr => "Expr",
            NodeKind::Item => "Item",
        }
    }
}

/// The length of a label and its first letter.
spec fn node_shape(kind: NodeKind) -> (nat, char) {
    match kind {
        NodeKind::If => (2, 'I'),
        NodeKind::Match => (5, 'M'),
        NodeKind::While => (5, 'W'),
        NodeKind::For => (3, 'F'),
        NodeKind::Loop => (4, 'L'),
        NodeKind::Block => (5, 'B'),
        NodeKind::Try => (3, 'T'),
        NodeKind::Arm => (3, 'A'),
        NodeKind::Other => (5, 'O'),
        NodeKind::Expr => (4, 'E'),
        NodeKind::Item => (4, 'I'),
    }
}

proof fn lemma_node_shape(kind: NodeKind)
    ensures
        kind.label().len() == node_shape(kind).0,
        kind.label().len() > 0,
        kind.label()[0] == node_shape(kind).1,
{
    match kind {
        NodeKind::If => {
            reveal_strlit("IF");
        },
        NodeKind::Match => {
            reveal_strlit("MATCH");
        },
        NodeKind::While => {
            reveal_strlit("WHILE");
        },
        NodeKind::For => {
            reveal_strlit("FOR");
        },
        NodeKind::Loop => {
            reveal_strlit("LOOP");
        },
        NodeKind::Block => {
            reveal_strlit("BLOCK");
        },
        NodeKind::Try => {
            reveal_strlit("TRY");
        },
        NodeKind::Arm => {
            reveal_strlit("ARM");
        },
        NodeKind::Other => {
            reveal_strlit("OTHER");
        },
        NodeKind::Expr => {
            reveal_strlit("EXPR");
        },
        NodeKind::Item => {
            reveal_strlit("ITEM");
        },
    }
}

/// No two variants have the same label.
proof fn lemma_nodekind_labels(a: NodeKind, b: NodeKind)
    requires
        a.label() == b.label(),
    ensures
        a == b,
{
    lemma_node_shape(a);
    lemma_node_shape(b);
    assert(node_shape(a) == node_shape(b));
}

/// The kind of node that a label names.
pub fn node_kind_from_variant(variant: &str) -> (r: Option<NodeKind>)
    ensures
        match r {
            Some(kind) => variant@ == kind.label(),
            None => forall|kind: NodeKind| variant@ != #[trigger] kind.label(),
        },
{
    if str_eq(variant, "IF") {
        return Some(NodeKind::If);
    }
    if str_eq(variant, "MATCH") {
        return Some(NodeKind::Match);
    }
    if str_eq(variant, "WHILE") {
        return Some(NodeKind::While);
    }
    if str_eq(variant, "FOR") {
        return Some(NodeKind::For);
    }
    if str_eq(variant, "LOOP") {
        return Some(NodeKind::Loop);
    }
    if str_eq(variant, "BLOCK") {
        return Some(NodeKind::Block);
    }
    if str_eq(variant, "TRY") {
        return Some(NodeKind::Try);
    }
    if str_eq(variant, "ARM") {
        return Some(NodeKind::Arm);
    }
    if str_eq(variant, "OTHER") {
        return Some(NodeKind::Other);
    }
    if str_eq(variant, "EXPR") {
        return Some(NodeKind::Expr);
    }
    if str_eq(variant, "ITEM") {
        return Some(NodeKind::Item);
    }
    None
}

/// How a call finds its callee.
#[derive(Debug, Clone, Copy, PartialEq, Eq, Hash, PartialOrd, Ord, Structural)]
pub enum DispatchKind {
    Direct,
    ThroughTrait,
    Dyn,
    Closure,
    FnPointer,
}

impl DispatchKind {
    /// The name of the variant in query results.
    pub open spec fn label(self) -> Seq<char> {
        match self {
            DispatchKind::Direct => "DIRECT"@,
            DispatchKind::ThroughTrait => "THROUGH_TRAIT"@,
            DispatchKind::Dyn => "DYN"@,
            DispatchKind::Closure => "CLOSURE"@,
            DispatchKind::FnPointer => "FN_POINTER"@,
        }
    }

    /// The name of the variant in identity tokens.
    pub open spec fn name(self) -> Seq<char> {
        match self {
            DispatchKind::Direct => "Direct"@,
            DispatchKind::ThroughTrait => "ThroughTrait"@,
            DispatchKind::Dyn => "Dyn"@,
            DispatchKind::Closure => "Closure"@,
            DispatchKind::FnPointer => "FnPointer"@,
        }
    }

    /// The name of the variant in query results.
    pub fn variant_label(self) -> (r: &'static str)
        ensures
            r@ == self.label(),
    {
        match self {
            DispatchKind::Direct => "DIRECT",
            DispatchKind::ThroughTrait => "THROUGH_TRAIT",
            DispatchKind::Dyn => "DYN",
            DispatchKind::Closure => "CLOSURE",
            DispatchKind::FnPointer => "FN_POINTER",
        }
    }

    /// The name of the variant in identity tokens.
    pub fn variant_name(self) -> (r: &'static str)
        ensures
            r@ == self.name(),
    {
        match self {
            DispatchKind::Direct => "Direct",
            DispatchKind::ThroughTrait => "ThroughTrait",
            DispatchKind::Dyn => "Dyn",
            DispatchKind::Closure => "Closure",
            DispatchKind::FnPointer => "FnPointer",
        }
    }
}

/// The length of a label and its first letter.
spec fn dispatch_shape(kind: DispatchKind) -> (nat, char) {
    match kind {
        DispatchKind::Direct => (6, 'D'),
        DispatchKind::ThroughTrait => (13, 'T'),
        DispatchKind::Dyn => (3, 'D'),
        DispatchKind::Closure => (7, 'C'),
        DispatchKind::FnPointer => (10, 'F'),
    }
}

proof fn lemma_dispatch_shape(kind: DispatchKind)
    ensures
        kind.label().len() == dispatch_shape(kind).0,
        kind.label().len() > 0,
        kind.label()[0] == dispatch_shape(kind).1,
{
    match kind {
        DispatchKind::Direct => {
            reveal_strlit("DIRECT");
        },
        DispatchKind::ThroughTrait => {
            reveal_strlit("THROUGH_TRAIT");
        },
        DispatchKind::Dyn => {
            reveal_strlit("DYN");
        },
        DispatchKind::Closure => {
            reveal_strlit("CLOSURE");
        },
        DispatchKind::FnPointer => {
            reveal_strlit("FN_POINTER");
        },
    }
}

/// No two variants have the same label.
proof fn lemma_dispatchkind_labels(a: DispatchKind, b: DispatchKind)
    requires
        a.label() == b.label(),
    ensures
        a == b,
{
    lemma_dispatch_shape(a);
    lemma_dispatch_shape(b);
    assert(dispatch_shape(a) == dispatch_shape(b));
}

/// The dispatch that a label names.
pub fn dispatch_kind_from_variant(variant: &str) -> (r: Option<DispatchKind>)
    ensures
        match r {
            Some(kind) => variant@ == kind.label(),
            None => forall|kind: DispatchKind| variant@ != #[trigger] kind.label(),
        },
{
    if str_eq(variant, "DIRECT") {
        return Some(DispatchKind::Direct);
    }
    if str_eq(variant, "THROUGH_TRAIT") {
        return Some(DispatchKind::ThroughTrait);
    }
    if str_eq(variant, "DYN") {
        return Some(DispatchKind::Dyn);
    }
    if str_eq(variant, "CLOSURE") {
        return Some(DispatchKind::Closure);
    }
    if str_eq(variant, "FN_POINTER") {
        return Some(DispatchKind::FnPointer);
    }
    None
}

/// Whether a reference or pointer may be written through.
#[derive(Debug, Clone, Copy, PartialEq, Eq, Hash, PartialOrd, Ord, Structural)]
pub enum Mutability {
    Mut,
    Shared,
}

impl Mutability {
    /// The name of the variant in query results.
    pub open spec fn label(self) -> Seq<char> {
        match self {
            Mutability::Mut => "MUT"@,
            Mutability::Shared => "SHARED"@,
        }
    }

    /// The name of the variant in identity tokens.
    pub open spec fn name(self) -> Seq<char> {
        match self {
            Mutability::Mut => "Mut"@,
            Mutability::Shared => "Shared"@,
        }
    }

    /// The name of the variant in query results.
    pub fn variant_label(self) -> (r: &'static str)
        ensures
            r@ == self.label(),
    {
        match self {
            Mutability::Mut => "MUT",
            Mutability::Shared => "SHARED",
        }
    }

    /// The name of the variant in identity tokens.
    pub fn variant_name(self) -> (r: &'static str)
        ensures
            r@ == self.name(),
    {
        match self {
            Mutability::Mut => "Mut",
            Mutability::Shared => "Shared",
        }
    }
}

/// The kind that query results show: the kinds that only the syntax tree tells
/// apart are shown as other nodes.
pub open spec fn shown_kind(kind: NodeKind) -> NodeKind {
    match kind {
        NodeKind::Expr | NodeKind::Item => NodeKind::Other,
        _ => kind,
    }
}

/// The kind that query results show.
pub fn public_node_kind(kind: NodeKind) -> (r: NodeKind)
    ensures
        r == shown_kind(kind),
{
    match kind {
        NodeKind::Expr | NodeKind::Item => NodeKind::Other,
        _ => kind,
    }
}

/// The kinds that decide which code runs.
pub open spec fn is_control(kind: NodeKind) -> bool {
    kind is If || kind is Match || kind is While || kind is For || kind is Loop
}

/// Whether nodes of the kind decide which code runs.
pub fn is_control_kind(kind: NodeKind) -> (r: bool)
    ensures
        r == is_control(kind),
{
    match kind {
        NodeKind::If | NodeKind::Match | NodeKind::While | NodeKind::For | NodeKind::Loop => true,
        _ => false,
    }
}

/// Reading a definition kind's label gives the kind.
pub proof fn law_def_kind_labels_are_distinct(a: DefKind, b: DefKind)
    ensures
        a.label() == b.label() <==> a == b,
{
    if a.label() == b.label() {
        lemma_defkind_labels(a, b);
    }
}

/// Reading a node kind's label gives the kind.
pub proof fn law_node_kind_labels_are_distinct(a: NodeKind, b: NodeKind)
    ensures
        a.label() == b.label() <==> a == b,
{
    if a.label() == b.label() {
        lemma_nodekind_labels(a, b);
    }
}

/// Reading a dispatch label gives the dispatch.
pub proof fn law_dispatch_labels_are_distinct(a: DispatchKind, b: DispatchKind)
    ensures
        a.label() == b.label() <==> a == b,
{
    if a.label() == b.label() {
        lemma_dispatchkind_labels(a, b);
    }
}

} // verus!
