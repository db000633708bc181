//! What the index says of types and of the members of definitions.

use crate::host::{DefId, TypeRefId};
use crate::ra::host::{DeterministicRaHost, HostView};
use crate::ra::kinds::Mutability;
use crate::ra::rows::MethodView;
use crate::ra::shapes::{type_args, type_args_of, type_ids, ShapeView, TypeShape};
use vstd::prelude::*;

verus! {

/// Items with their places, from zero on.
pub open spec fn indexed(types: Seq<u64>) -> Seq<(int, u64)> {
    Seq::new(types.len(), |i: int| (i, types[i]))
}

/// What places and types say.
pub open spec fn pair_views(pairs: Seq<(usize, TypeRefId)>) -> Seq<(int, u64)> {
    pairs.map_values(|pair: (usize, TypeRefId)| (pair.0 as int, pair.1@))
}

/// The owner that the first row for a method names.
pub open spec fn first_owner(rows: Seq<MethodView>, method: u64) -> Option<u64>
    decreases rows.len(),
{
    if rows.len() == 0 {
        None
    } else if rows[0].method == method {
        Some(rows[0].owner)
    } else {
        first_owner(rows.drop_first(), method)
    }
}

impl HostView {
    /// The shape of a type; an unknown one where none has been told.
    pub open spec fn shape_of(self, type_ref: u64) -> ShapeView {
        if self.types.contains_key(type_ref) {
            self.types[type_ref]
        } else {
            ShapeView::Unknown
        }
    }

    /// The type or the trait whose method a definition is.
    pub open spec fn method_owner_of(self, method: u64) -> Option<u64> {
        match first_owner(self.methods, method) {
            Some(owner) => Some(owner),
            None => first_owner(self.trait_methods, method),
        }
    }

    /// The type arguments of an applied type.
    pub open spec fn args_of(self, type_ref: u64) -> Seq<u64> {
        match self.shape_of(type_ref) {
            ShapeView::App { args, .. } => type_args(args),
            _ => Seq::empty(),
        }
    }

    /// The items of a tuple type.
    pub open spec fn items_of(self, type_ref: u64) -> Seq<u64> {
        match self.shape_of(type_ref) {
            ShapeView::Tuple(items) => items,
            _ => Seq::empty(),
        }
    }
}

/// Items with their places, from zero on.
fn with_places(types: &Vec<TypeRefId>) -> (r: Vec<(usize, TypeRefId)>)
    ensures
        pair_views(r@) == indexed(type_ids(types@)),
{
    let mut out: Vec<(usize, TypeRefId)> = Vec::new();
    let mut i: usize = 0;
    assert(pair_views(out@) =~= indexed(type_ids(types@)).take(0));
    while i < types.len()
        invariant
            i <= types@.len(),
            pair_views(out@) == indexed(type_ids(types@)).take(i as int),
        decreases types.len() - i,
    {
        let ghost before = pair_views(out@);
        let ghost want = indexed(type_ids(types@));
        out.push((i, types[i]));
        proof {
            assert(pair_views(out@) =~= before.push((i as int, types@[i as int]@)));
            assert(want[i as int] == (i as int, types@[i as int]@));
            assert(want.take(i + 1) =~= want.take(i as int).push(want[i as int]));
        }
        i += 1;
    }
    assert(indexed(type_ids(types@)).take(i as int) =~= indexed(type_ids(types@)));
    out
}

impl DeterministicRaHost {
    /// The head of an applied type.
    pub fn ty_app(&self, type_ref: TypeRefId) -> (r: Option<DefId>)
        requires
            self.wf(),
        ensures
            match self@.shape_of(type_ref@) {
                ShapeView::App { head, .. } => r is Some && r->0@ == head,
                _ => r is None,
            },
    {
        match self.type_shape(type_ref) {
            Some(TypeShape::App { head, .. }) => Some(*head),
            _ => None,
        }
    }

    /// The type arguments of an applied type.
    fn arg_types(&self, type_ref: TypeRefId) -> (r: Vec<TypeRefId>)
        requires
            self.wf(),
        ensures
            type_ids(r@) == self@.args_of(type_ref@),
    {
        match self.type_shape(type_ref) {
            Some(TypeShape::App { args, .. }) => type_args_of(args),
            _ => {
                let none: Vec<TypeRefId> = Vec::new();
                assert(type_ids(none@) =~= Seq::<u64>::empty());
                none
            },
        }
    }

    /// The type arguments of an applied type with their places; other generic
    /// arguments take no place.
    pub fn ty_args(&self, type_ref: TypeRefId) -> (r: Vec<(usize, TypeRefId)>)
        requires
            self.wf(),
        ensures
            pair_views(r@) == indexed(self@.args_of(type_ref@)),
    {
        with_places(&self.arg_types(type_ref))
    }

    /// The type argument at a place.
    pub fn ty_arg(&self, type_ref: TypeRefId, index: usize) -> (r: Option<TypeRefId>)
        requires
            self.wf(),
        ensures
            match r {
                Some(found) => index < self@.args_of(type_ref@).len() && found@ == self@.args_of(
                    type_ref@,
                )[index as int],
                None => index >= self@.args_of(type_ref@).len(),
            },
    {
        let args = self.arg_types(type_ref);
        assert(type_ids(args@).len() == args@.len());
        if index < args.len() {
            assert(type_ids(args@)[index as int] == args@[index as int]@);
            Some(args[index])
        } else {
            None
        }
    }

    /// What a reference type refers to.
    pub fn ty_ref(&self, type_ref: TypeRefId) -> (r: Option<(Mutability, TypeRefId)>)
        requires
            self.wf(),
        ensures
            match self@.shape_of(type_ref@) {
                ShapeView::Ref { mutability, inner } => r is Some && (r->0).0 == mutability && (
                r->0).1@ == inner,
                _ => r is None,
            },
    {
        match self.type_shape(type_ref) {
            Some(TypeShape::Ref { mutability, inner }) => Some((*mutability, *inner)),
            _ => None,
        }
    }

    /// What a pointer type points to.
    pub fn ty_ptr(&self, type_ref: TypeRefId) -> (r: Option<(Mutability, TypeRefId)>)
        requires
            self.wf(),
        ensures
            match self@.shape_of(type_ref@) {
                ShapeView::Ptr { mutability, inner } => r is Some && (r->0).0 == mutability && (
                r->0).1@ == inner,
                _ => r is None,
            },
    {
        match self.type_shape(type_ref) {
            Some(TypeShape::Ptr { mutability, inner }) => Some((*mutability, *inner)),
            _ => None,
        }
    }

    /// The items of a tuple type with their places.
    pub fn ty_tuples(&self, type_ref: TypeRefId) -> (r: Vec<(usize, TypeRefId)>)
        requires
            self.wf(),
        ensures
            pair_views(r@) == indexed(self@.items_of(type_ref@)),
    {
        match self.type_shape(type_ref) {
            Some(TypeShape::Tuple(items)) => with_places(items),
            _ => {
                let none: Vec<(usize, TypeRefId)> = Vec::new();
                assert(pair_views(none@) =~= indexed(Seq::empty()));
                none
            },
        }
    }

    /// The item of a tuple type at a place.
    pub fn ty_tuple(&self, type_ref: TypeRefId, index: usize) -> (r: Option<TypeRefId>)
        requires
            self.wf(),
        ensures
            match r {
                Some(found) => index < self@.items_of(type_ref@).len() && found@ == self@.items_of(
                    type_ref@,
                )[index as int],
                None => index >= self@.items_of(type_ref@).len(),
            },
    {
        match self.type_shape(type_ref) {
            Some(TypeShape::Tuple(items)) => if index < items.len() {
                assert(type_ids(items@)[index as int] == items@[index as int]@);
                Some(items[index])
            } else {
                None
            },
            _ => None,
        }
    }

    /// The item type of a slice type.
    pub fn ty_slice(&self, type_ref: TypeRefId) -> (r: Option<TypeRefId>)
        requires
            self.wf(),
        ensures
            match self@.shape_of(type_ref@) {
                ShapeView::Slice(inner) => r is Some && r->0@ == inner,
                _ => r is None,
            },
    {
        match self.type_shape(type_ref) {
            Some(TypeShape::Slice(inner)) => Some(*inner),
            _ => None,
        }
    }

    /// The definition of a type parameter.
    pub fn ty_param(&self, type_ref: TypeRefId) -> (r: Option<DefId>)
        requires
            self.wf(),
        ensures
            match self@.shape_of(type_ref@) {
                ShapeView::Param(param) => r is Some && r->0@ == param,
                _ => r is None,
            },
    {
        match self.type_shape(type_ref) {
            Some(TypeShape::Param(param)) => Some(*param),
            _ => None,
        }
    }

    /// The name of a primitive type.
    pub fn ty_prim(&self, type_ref: TypeRefId) -> (r: Option<&str>)
        requires
            self.wf(),
        ensures
            match self@.shape_of(type_ref@) {
                ShapeView::Prim(name) => r is Some && r->0@ == name,
                _ => r is None,
            },
    {
        match self.type_shape(type_ref) {
            Some(TypeShape::Prim(name)) => Some(name.as_str()),
            _ => None,
        }
    }

    /// Whether nothing is known of how a type is built.
    pub fn ty_unknown(&self, type_ref: TypeRefId) -> (r: bool)
        requires
            self.wf(),
        ensures
            r == (self@.types.contains_key(type_ref@) && self@.types[type_ref@] is Unknown),
    {
        match self.type_shape(type_ref) {
            Some(TypeShape::Unknown) => true,
            _ => false,
        }
    }
}

} // verus!
