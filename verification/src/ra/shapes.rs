//! The shapes of types.

use crate::host::{DefId, TypeRefId};
use crate::ra::kinds::Mutability;
use vstd::prelude::*;

verus! {

/// A generic argument of an applied type.
#[derive(Debug, Clone, Copy, PartialEq, Eq, Hash)]
pub enum GenericArg {
    Lifetime,
    Type(TypeRefId),
    Const,
}

/// What a generic argument says.
pub enum GenericArgView {
    Lifetime,
    Type(u64),
    Const,
}

impl View for GenericArg {
    type V = GenericArgView;

    open spec fn view(&self) -> GenericArgView {
        match self {
            GenericArg::Lifetime => GenericArgView::Lifetime,
            GenericArg::Type(type_ref) => GenericArgView::Type(type_ref@),
            GenericArg::Const => GenericArgView::Const,
        }
    }
}

/// How a type is built.
#[derive(Debug, Clone, PartialEq, Eq)]
pub enum TypeShape {
    App { head: DefId, args: Vec<GenericArg> },
    Ref { mutability: Mutability, inner: TypeRefId },
    Ptr { mutability: Mutability, inner: TypeRefId },
    Tuple(Vec<TypeRefId>),
    Slice(TypeRefId),
    Param(DefId),
    Prim(String),
    Unknown,
}

/// What a shape says.
pub enum ShapeView {
    App { head: u64, args: Seq<GenericArgView> },
    Ref { mutability: Mutability, inner: u64 },
    Ptr { mutability: Mutability, inner: u64 },
    Tuple(Seq<u64>),
    Slice(u64),
    Param(u64),
    Prim(Seq<char>),
    Unknown,
}

/// What generic arguments say.
pub open spec fn arg_views(args: Seq<GenericArg>) -> Seq<GenericArgView> {
    args.map_values(|arg: GenericArg| arg@)
}

/// The raw ids of types.
pub open spec fn type_ids(types: Seq<TypeRefId>) -> Seq<u64> {
    types.map_values(|type_ref: TypeRefId| type_ref@)
}

impl View for TypeShape {
    type V = ShapeView;

    open spec fn view(&self) -> ShapeView {
        match self {
            TypeShape::App { head, args } => ShapeView::App { head: head@, args: arg_views(args@) },
            TypeShape::Ref { mutability, inner } => ShapeView::Ref {
                mutability: *mutability,
                inner: inner@,
            },
            TypeShape::Ptr { mutability, inner } => ShapeView::Ptr {
                mutability: *mutability,
                inner: inner@,
            },
            TypeShape::Tuple(items) => ShapeView::Tuple(type_ids(items@)),
            TypeShape::Slice(inner) => ShapeView::Slice(inner@),
            TypeShape::Param(param) => ShapeView::Param(param@),
            TypeShape::Prim(name) => ShapeView::Prim(name@),
            TypeShape::Unknown => ShapeView::Unknown,
        }
    }
}

/// The type arguments among generic arguments, in order.
pub open spec fn type_args(args: Seq<GenericArgView>) -> Seq<u64>
    decreases args.len(),
{
    if args.len() == 0 {
        Seq::empty()
    } else {
        match args.last() {
            GenericArgView::Type(type_ref) => type_args(args.drop_last()).push(type_ref),
            _ => type_args(args.drop_last()),
        }
    }
}

/// The type arguments among generic arguments, in order.
pub fn type_args_of(args: &Vec<GenericArg>) -> (r: Vec<TypeRefId>)
    ensures
        type_ids(r@) == type_args(arg_views(args@)),
{
    let mut out: Vec<TypeRefId> = Vec::new();
    let mut i: usize = 0;
    assert(type_ids(out@) =~= type_args(arg_views(args@).take(0)));
    while i < args.len()
        invariant
            i <= args@.len(),
            type_ids(out@) == type_args(arg_views(args@).take(i as int)),
        decreases args.len() - i,
    {
        let ghost before = type_ids(out@);
        proof {
            let next = arg_views(args@).take(i + 1);
            assert(next.drop_last() =~= arg_views(args@).take(i as int));
            assert(next.last() == args@[i as int]@);
        }
        match args[i] {
            GenericArg::Type(type_ref) => {
                out.push(type_ref);
                assert(type_ids(out@) =~= before.push(type_ref@));
            },
            _ => {},
        }
        i += 1;
    }
    assert(arg_views(args@).take(i as int) =~= arg_views(args@));
    out
}

} // verus!
