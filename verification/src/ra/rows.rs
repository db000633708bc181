//! The rows of the relations of the index.

use crate::host::{DefId, SpanId, TypeRefId};
use crate::ra::kinds::DispatchKind;
use crate::ra::store::Row;
use crate::text::str_eq;
use vstd::prelude::*;

verus! {

/// What an optional text says.
pub open spec fn opt_text(text: Option<String>) -> Option<Seq<char>> {
    match text {
        Some(text) => Some(text@),
        None => None,
    }
}

/// Whether two optional texts say the same.
fn same_opt_text(a: &Option<String>, b: &Option<String>) -> (r: bool)
    ensures
        r == (opt_text(*a) == opt_text(*b)),
{
    match (a, b) {
        (Some(a), Some(b)) => str_eq(a.as_str(), b.as_str()),
        (None, None) => true,
        _ => false,
    }
}

/// Whether two definition ids are the same.
pub fn same_def(a: DefId, b: DefId) -> (r: bool)
    ensures
        r == (a@ == b@),
{
    a.stable_id().as_u64() == b.stable_id().as_u64()
}

/// Whether two span ids are the same.
pub fn same_span(a: SpanId, b: SpanId) -> (r: bool)
    ensures
        r == (a@ == b@),
{
    a.stable_id().as_u64() == b.stable_id().as_u64()
}

/// Whether two type ids are the same.
pub fn same_type(a: TypeRefId, b: TypeRefId) -> (r: bool)
    ensures
        r == (a@ == b@),
{
    a.stable_id().as_u64() == b.stable_id().as_u64()
}

/// A field of a definition.
#[derive(Debug, Clone)]
pub struct FieldRow {
    pub owner: DefId,
    pub name: String,
    pub ty: TypeRefId,
}

/// What a [`FieldRow`] says.
pub struct FieldView {
    pub owner: u64,
    pub name: Seq<char>,
    pub ty: u64,
}

impl View for FieldRow {
    type V = FieldView;

    open spec fn view(&self) -> FieldView {
        FieldView {
            owner: self.owner@,
            name: self.name@,
            ty: self.ty@,
        }
    }
}

impl Row for FieldRow {
    fn same(&self, other: &Self) -> (r: bool) {
        same_def(self.owner, other.owner)
            && str_eq(self.name.as_str(), other.name.as_str())
            && same_type(self.ty, other.ty)
    }
}

/// A variant of an enum.
#[derive(Debug, Clone)]
pub struct VariantRow {
    pub owner: DefId,
    pub name: String,
    pub variant: DefId,
}

/// What a [`VariantRow`] says.
pub struct VariantView {
    pub owner: u64,
    pub name: Seq<char>,
    pub variant: u64,
}

impl View for VariantRow {
    type V = VariantView;

    open spec fn view(&self) -> VariantView {
        VariantView {
            owner: self.owner@,
            name: self.name@,
            variant: self.variant@,
        }
    }
}

impl Row for VariantRow {
    fn same(&self, other: &Self) -> (r: bool) {
        same_def(self.owner, other.owner)
            && str_eq(self.name.as_str(), other.name.as_str())
            && same_def(self.variant, other.variant)
    }
}

/// A method of a type or of a trait.
#[derive(Debug, Clone)]
pub struct MethodRow {
    pub owner: DefId,
    pub method: DefId,
}

/// What a [`MethodRow`] says.
pub struct MethodView {
    pub owner: u64,
    pub method: u64,
}

impl View for MethodRow {
    type V = MethodView;

    open spec fn view(&self) -> MethodView {
        MethodView {
            owner: self.owner@,
            method: self.method@,
        }
    }
}

impl Row for MethodRow {
    fn same(&self, other: &Self) -> (r: bool) {
        same_def(self.owner, other.owner)
            && same_def(self.method, other.method)
    }
}

/// A type that implements a trait, and the impl that says so.
#[derive(Debug, Clone)]
pub struct ImplementsRow {
    pub owner: DefId,
    pub trait_def: DefId,
    pub impl_def: DefId,
}

/// What a [`ImplementsRow`] says.
pub struct ImplementsView {
    pub owner: u64,
    pub trait_def: u64,
    pub impl_def: u64,
}

impl View for ImplementsRow {
    type V = ImplementsView;

    open spec fn view(&self) -> ImplementsView {
        ImplementsView {
            owner: self.owner@,
            trait_def: self.trait_def@,
            impl_def: self.impl_def@,
        }
    }
}

impl Row for ImplementsRow {
    fn same(&self, other: &Self) -> (r: bool) {
        same_def(self.owner, other.owner)
            && same_def(self.trait_def, other.trait_def)
            && same_def(self.impl_def, other.impl_def)
    }
}

/// A conversion between types, and the impl that gives it.
#[derive(Debug, Clone)]
pub struct FromImplRow {
    pub source: DefId,
    pub target: DefId,
    pub impl_def: DefId,
}

/// What a [`FromImplRow`] says.
pub struct FromImplView {
    pub source: u64,
    pub target: u64,
    pub impl_def: u64,
}

impl View for FromImplRow {
    type V = FromImplView;

    open spec fn view(&self) -> FromImplView {
        FromImplView {
            source: self.source@,
            target: self.target@,
            impl_def: self.impl_def@,
        }
    }
}

impl Row for FromImplRow {
    fn same(&self, other: &Self) -> (r: bool) {
        same_def(self.source, other.source)
            && same_def(self.target, other.target)
            && same_def(self.impl_def, other.impl_def)
    }
}

/// A call: who calls whom, where, and how the callee is found.
#[derive(Debug, Clone)]
pub struct CallEdgeRow {
    pub caller: DefId,
    pub callee: DefId,
    pub site: SpanId,
    pub dispatch: DispatchKind,
}

/// What a [`CallEdgeRow`] says.
pub struct CallEdgeView {
    pub caller: u64,
    pub callee: u64,
    pub site: u64,
    pub dispatch: DispatchKind,
}

impl View for CallEdgeRow {
    type V = CallEdgeView;

    open spec fn view(&self) -> CallEdgeView {
        CallEdgeView {
            caller: self.caller@,
            callee: self.callee@,
            site: self.site@,
            dispatch: self.dispatch,
        }
    }
}

impl Row for CallEdgeRow {
    fn same(&self, other: &Self) -> (r: bool) {
        same_def(self.caller, other.caller)
            && same_def(self.callee, other.callee)
            && same_span(self.site, other.site)
            && self.dispatch == other.dispatch
    }
}

/// A place where a function builds a variant of its error.
#[derive(Debug, Clone)]
pub struct ConstructRow {
    pub error: DefId,
    pub variant: String,
    pub site: SpanId,
    pub function: DefId,
}

/// What a [`ConstructRow`] says.
pub struct ConstructView {
    pub error: u64,
    pub variant: Seq<char>,
    pub site: u64,
    pub function: u64,
}

impl View for ConstructRow {
    type V = ConstructView;

    open spec fn view(&self) -> ConstructView {
        ConstructView {
            error: self.error@,
            variant: self.variant@,
            site: self.site@,
            function: self.function@,
        }
    }
}

impl Row for ConstructRow {
    fn same(&self, other: &Self) -> (r: bool) {
        same_def(self.error, other.error)
            && str_eq(self.variant.as_str(), other.variant.as_str())
            && same_span(self.site, other.site)
            && same_def(self.function, other.function)
    }
}

/// A place where a function passes its error on.
#[derive(Debug, Clone)]
pub struct PropagateRow {
    pub error: DefId,
    pub site: SpanId,
    pub function: DefId,
}

/// What a [`PropagateRow`] says.
pub struct PropagateView {
    pub error: u64,
    pub site: u64,
    pub function: u64,
}

impl View for PropagateRow {
    type V = PropagateView;

    open spec fn view(&self) -> PropagateView {
        PropagateView {
            error: self.error@,
            site: self.site@,
            function: self.function@,
        }
    }
}

impl Row for PropagateRow {
    fn same(&self, other: &Self) -> (r: bool) {
        same_def(self.error, other.error)
            && same_span(self.site, other.site)
            && same_def(self.function, other.function)
    }
}

/// A place where a function turns one error into another.
#[derive(Debug, Clone)]
pub struct ConvertRow {
    pub source: DefId,
    pub target: DefId,
    pub site: SpanId,
    pub function: DefId,
}

/// What a [`ConvertRow`] says.
pub struct ConvertView {
    pub source: u64,
    pub target: u64,
    pub site: u64,
    pub function: u64,
}

impl View for ConvertRow {
    type V = ConvertView;

    open spec fn view(&self) -> ConvertView {
        ConvertView {
            source: self.source@,
            target: self.target@,
            site: self.site@,
            function: self.function@,
        }
    }
}

impl Row for ConvertRow {
    fn same(&self, other: &Self) -> (r: bool) {
        same_def(self.source, other.source)
            && same_def(self.target, other.target)
            && same_span(self.site, other.site)
            && same_def(self.function, other.function)
    }
}

/// A place where a function handles an error.
#[derive(Debug, Clone)]
pub struct HandleRow {
    pub error: DefId,
    pub variant: Option<String>,
    pub site: SpanId,
    pub function: DefId,
}

/// What a [`HandleRow`] says.
pub struct HandleView {
    pub error: u64,
    pub variant: Option<Seq<char>>,
    pub site: u64,
    pub function: u64,
}

impl View for HandleRow {
    type V = HandleView;

    open spec fn view(&self) -> HandleView {
        HandleView {
            error: self.error@,
            variant: opt_text(self.variant),
            site: self.site@,
            function: self.function@,
        }
    }
}

impl Row for HandleRow {
    fn same(&self, other: &Self) -> (r: bool) {
        same_def(self.error, other.error)
            && same_opt_text(&self.variant, &other.variant)
            && same_span(self.site, other.site)
            && same_def(self.function, other.function)
    }
}

/// A place where a function compares its error.
#[derive(Debug, Clone)]
pub struct CompareRow {
    pub error: DefId,
    pub site: SpanId,
    pub operator: String,
    pub function: DefId,
}

/// What a [`CompareRow`] says.
pub struct CompareView {
    pub error: u64,
    pub site: u64,
    pub operator: Seq<char>,
    pub function: u64,
}

impl View for CompareRow {
    type V = CompareView;

    open spec fn view(&self) -> CompareView {
        CompareView {
            error: self.error@,
            site: self.site@,
            operator: self.operator@,
            function: self.function@,
        }
    }
}

impl Row for CompareRow {
    fn same(&self, other: &Self) -> (r: bool) {
        same_def(self.error, other.error)
            && same_span(self.site, other.site)
            && str_eq(self.operator.as_str(), other.operator.as_str())
            && same_def(self.function, other.function)
    }
}

/// A place where a function assigns its error.
#[derive(Debug, Clone)]
pub struct WriteRow {
    pub error: DefId,
    pub site: SpanId,
    pub function: DefId,
}

/// What a [`WriteRow`] says.
pub struct WriteView {
    pub error: u64,
    pub site: u64,
    pub function: u64,
}

impl View for WriteRow {
    type V = WriteView;

    open spec fn view(&self) -> WriteView {
        WriteView {
            error: self.error@,
            site: self.site@,
            function: self.function@,
        }
    }
}

impl Row for WriteRow {
    fn same(&self, other: &Self) -> (r: bool) {
        same_def(self.error, other.error)
            && same_span(self.site, other.site)
            && same_def(self.function, other.function)
    }
}

} // verus!
