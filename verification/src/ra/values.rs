//! The values that predicates of the index are asked with and answer with.

use crate::host::{DefId, NodeId, SpanId};
use crate::ir::StableId;
use crate::ra::kinds::{DefKind, DispatchKind, NodeKind};
use crate::text::{owned, str_eq};
use vstd::prelude::*;

verus! {

/// What a host value stands for.
#[derive(Debug, Clone, Copy, PartialEq, Eq, Hash, PartialOrd, Ord, Structural)]
pub enum ExternLookupHostValueKind {
    Def,
    Span,
    TypeRef,
    Node,
    Call,
    Ref,
    Impl,
}

/// A host entity by kind and stable id.
#[derive(Debug, Clone, Copy, PartialEq, Eq, Hash, PartialOrd, Ord, Structural)]
pub struct ExternLookupHostValue {
    pub kind: ExternLookupHostValueKind,
    pub id: StableId,
}

impl ExternLookupHostValue {
    pub fn new(kind: ExternLookupHostValueKind, id: StableId) -> (r: Self)
        ensures
            r.kind == kind,
            r.id == id,
    {
        ExternLookupHostValue { kind, id }
    }

    pub fn kind(&self) -> (r: ExternLookupHostValueKind)
        ensures
            r == self.kind,
    {
        self.kind
    }

    pub fn stable_id(&self) -> (r: StableId)
        ensures
            r == self.id,
    {
        self.id
    }
}

/// A value of a lookup row.
#[derive(Debug, PartialEq, Eq)]
pub enum ExternLookupValue {
    Host(ExternLookupHostValue),
    Text(String),
    Number(i64),
    Enum { name: String, variant: String },
    Absent,
    Present(Box<ExternLookupValue>),
}

/// What a value says.
pub enum LookupView {
    Host(ExternLookupHostValueKind, u64),
    Text(Seq<char>),
    Number(i64),
    Enum { name: Seq<char>, variant: Seq<char> },
    Absent,
    Present(Box<LookupView>),
}

impl View for ExternLookupValue {
    type V = LookupView;

    open spec fn view(&self) -> LookupView {
        lookup_view(*self)
    }
}

/// What a value says.
pub open spec fn lookup_view(value: ExternLookupValue) -> LookupView
    decreases value,
{
    match value {
        ExternLookupValue::Host(host) => LookupView::Host(host.kind, host.id@),
        ExternLookupValue::Text(text) => LookupView::Text(text@),
        ExternLookupValue::Number(number) => LookupView::Number(number),
        ExternLookupValue::Enum { name, variant } => LookupView::Enum {
            name: name@,
            variant: variant@,
        },
        ExternLookupValue::Absent => LookupView::Absent,
        ExternLookupValue::Present(inner) => LookupView::Present(Box::new(lookup_view(*inner))),
    }
}

/// What the values of a row say.
pub open spec fn row_view(row: Seq<ExternLookupValue>) -> Seq<LookupView> {
    row.map_values(|value: ExternLookupValue| value@)
}

/// What rows say.
pub open spec fn rows_view(rows: Seq<Vec<ExternLookupValue>>) -> Seq<Seq<LookupView>> {
    rows.map_values(|row: Vec<ExternLookupValue>| row_view(row@))
}

/// A definition as a value.
pub open spec fn def_view(def: u64) -> LookupView {
    LookupView::Host(ExternLookupHostValueKind::Def, def)
}

/// A span as a value.
pub open spec fn span_view(span: u64) -> LookupView {
    LookupView::Host(ExternLookupHostValueKind::Span, span)
}

/// A node as a value.
pub open spec fn node_view(node: u64) -> LookupView {
    LookupView::Host(ExternLookupHostValueKind::Node, node)
}

/// A node, or none, as a value.
pub open spec fn option_node_view(node: Option<u64>) -> LookupView {
    match node {
        Some(node) => LookupView::Present(Box::new(node_view(node))),
        None => LookupView::Absent,
    }
}

/// A definition kind as a value.
pub open spec fn def_kind_view(kind: DefKind) -> LookupView {
    LookupView::Enum { name: "DefKind"@, variant: kind.label() }
}

/// A dispatch as a value.
pub open spec fn dispatch_view(dispatch: DispatchKind) -> LookupView {
    LookupView::Enum { name: "DispatchKind"@, variant: dispatch.label() }
}

/// A node kind as a value.
pub open spec fn node_kind_view(kind: NodeKind) -> LookupView {
    LookupView::Enum { name: "NodeKind"@, variant: crate::ra::kinds::shown_kind(kind).label() }
}

pub fn def_value(def: DefId) -> (r: ExternLookupValue)
    ensures
        r@ == def_view(def@),
{
    ExternLookupValue::Host(
        ExternLookupHostValue::new(ExternLookupHostValueKind::Def, def.stable_id()),
    )
}

pub fn span_value(span: SpanId) -> (r: ExternLookupValue)
    ensures
        r@ == span_view(span@),
{
    ExternLookupValue::Host(
        ExternLookupHostValue::new(ExternLookupHostValueKind::Span, span.stable_id()),
    )
}

pub fn node_value(node: NodeId) -> (r: ExternLookupValue)
    ensures
        r@ == node_view(node@),
{
    ExternLookupValue::Host(
        ExternLookupHostValue::new(ExternLookupHostValueKind::Node, node.stable_id()),
    )
}

pub fn text_value(text: &str) -> (r: ExternLookupValue)
    ensures
        r@ == LookupView::Text(text@),
{
    ExternLookupValue::Text(owned(text))
}

pub fn option_node_lookup_value(node: Option<NodeId>) -> (r: ExternLookupValue)
    ensures
        r@ == option_node_view(
            match node {
                Some(node) => Some(node@),
                None => None,
            },
        ),
{
    match node {
        Some(node) => ExternLookupValue::Present(Box::new(node_value(node))),
        None => ExternLookupValue::Absent,
    }
}

pub fn def_kind_lookup_value(kind: DefKind) -> (r: ExternLookupValue)
    ensures
        r@ == def_kind_view(kind),
{
    ExternLookupValue::Enum { name: owned("DefKind"), variant: owned(kind.variant_label()) }
}

pub fn dispatch_lookup_value(dispatch: DispatchKind) -> (r: ExternLookupValue)
    ensures
        r@ == dispatch_view(dispatch),
{
    ExternLookupValue::Enum {
        name: owned("DispatchKind"),
        variant: owned(dispatch.variant_label()),
    }
}

pub fn node_kind_lookup_value(kind: NodeKind) -> (r: ExternLookupValue)
    ensures
        r@ == node_kind_view(kind),
{
    ExternLookupValue::Enum {
        name: owned("NodeKind"),
        variant: owned(crate::ra::kinds::public_node_kind(kind).variant_label()),
    }
}

/// What a lookup is asked: the values at the bound argument positions.
#[derive(Debug, PartialEq, Eq)]
pub struct ExternLookupRequest {
    positions: Vec<usize>,
    values: Vec<ExternLookupValue>,
}

/// A bound argument: its position and its value.
pub struct BoundView {
    pub position: int,
    pub value: LookupView,
}

impl View for ExternLookupRequest {
    type V = Seq<BoundView>;

    closed spec fn view(&self) -> Seq<BoundView> {
        Seq::new(
            if self.positions@.len() <= self.values@.len() {
                self.positions@.len()
            } else {
                self.values@.len()
            },
            |i: int| BoundView { position: self.positions@[i] as int, value: self.values@[i]@ },
        )
    }
}

impl ExternLookupRequest {
    /// A request with values at positions; what has no partner is left out.
    pub fn new(positions: Vec<usize>, values: Vec<ExternLookupValue>) -> (r: Self)
        ensures
            r@.len() == if positions@.len() <= values@.len() {
                positions@.len()
            } else {
                values@.len()
            },
            forall|i: int|
                0 <= i < r@.len() ==> (#[trigger] r@[i]) == (BoundView {
                    position: positions@[i] as int,
                    value: values@[i]@,
                }),
    {
        ExternLookupRequest { positions, values }
    }

    /// How many arguments are bound.
    pub fn len(&self) -> (r: usize)
        ensures
            r == self@.len(),
    {
        if self.positions.len() <= self.values.len() {
            self.positions.len()
        } else {
            self.values.len()
        }
    }

    pub fn position(&self, i: usize) -> (r: usize)
        requires
            i < self@.len(),
        ensures
            r == self@[i as int].position,
    {
        self.positions[i]
    }

    pub fn value(&self, i: usize) -> (r: &ExternLookupValue)
        requires
            i < self@.len(),
        ensures
            r@ == self@[i as int].value,
    {
        &self.values[i]
    }
}

/// The definition a value stands for.
pub open spec fn as_def(value: LookupView) -> Option<u64> {
    match value {
        LookupView::Host(ExternLookupHostValueKind::Def, id) => Some(id),
        _ => None,
    }
}

/// The span a value stands for.
pub open spec fn as_span(value: LookupView) -> Option<u64> {
    match value {
        LookupView::Host(ExternLookupHostValueKind::Span, id) => Some(id),
        _ => None,
    }
}

/// The node a value stands for.
pub open spec fn as_node(value: LookupView) -> Option<u64> {
    match value {
        LookupView::Host(ExternLookupHostValueKind::Node, id) => Some(id),
        _ => None,
    }
}

/// The node, or none, that a value stands for.
pub open spec fn as_option_node(value: LookupView) -> Option<Option<u64>> {
    match value {
        LookupView::Absent => Some(None),
        LookupView::Present(inner) => match as_node(*inner) {
            Some(id) => Some(Some(id)),
            None => None,
        },
        _ => None,
    }
}

/// The variant that a value of the named enum is.
pub open spec fn as_variant(value: LookupView, wanted: Seq<char>) -> Option<Seq<char>> {
    match value {
        LookupView::Enum { name, variant } => if name == wanted {
            Some(variant)
        } else {
            None
        },
        _ => None,
    }
}

impl ExternLookupValue {
    pub fn to_def(&self) -> (r: Option<DefId>)
        ensures
            match r {
                Some(def) => as_def(self@) == Some(def@),
                None => as_def(self@) is None,
            },
    {
        match self {
            ExternLookupValue::Host(host) => if host.kind() == ExternLookupHostValueKind::Def {
                Some(DefId::new(host.stable_id()))
            } else {
                None
            },
            _ => None,
        }
    }

    pub fn to_span(&self) -> (r: Option<SpanId>)
        ensures
            match r {
                Some(span) => as_span(self@) == Some(span@),
                None => as_span(self@) is None,
            },
    {
        match self {
            ExternLookupValue::Host(host) => if host.kind() == ExternLookupHostValueKind::Span {
                Some(SpanId::new(host.stable_id()))
            } else {
                None
            },
            _ => None,
        }
    }

    pub fn to_node(&self) -> (r: Option<NodeId>)
        ensures
            match r {
                Some(node) => as_node(self@) == Some(node@),
                None => as_node(self@) is None,
            },
    {
        match self {
            ExternLookupValue::Host(host) => if host.kind() == ExternLookupHostValueKind::Node {
                Some(NodeId::new(host.stable_id()))
            } else {
                None
            },
            _ => None,
        }
    }

    pub fn to_option_node(&self) -> (r: Option<Option<NodeId>>)
        ensures
            match r {
                Some(Some(node)) => as_option_node(self@) == Some(Some(node@)),
                Some(None) => as_option_node(self@) == Some(None::<u64>),
                None => as_option_node(self@) is None,
            },
    {
        match self {
            ExternLookupValue::Absent => Some(None),
            ExternLookupValue::Present(inner) => match inner.to_node() {
                Some(node) => Some(Some(node)),
                None => None,
            },
            _ => None,
        }
    }

    /// The variant that a value of the named enum is.
    pub fn to_variant(&self, wanted: &str) -> (r: Option<&str>)
        ensures
            match r {
                Some(variant) => as_variant(self@, wanted@) == Some(variant@),
                None => as_variant(self@, wanted@) is None,
            },
    {
        match self {
            ExternLookupValue::Enum { name, variant } => if str_eq(name.as_str(), wanted) {
                Some(variant.as_str())
            } else {
                None
            },
            _ => None,
        }
    }
}

} // verus!
