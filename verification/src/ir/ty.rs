//! Interned types.

use crate::ir::arena::TermArena;
use crate::ir::ids::ArenaId;
use crate::ir::value::Symbol;
use crate::text::{decimal, decimal_of};
use vstd::prelude::*;

verus! {

/// Canonical type ID returned by [`TypeInterner`].
#[derive(Clone, Copy, Debug, PartialEq, Eq, Hash, PartialOrd, Ord, Structural)]
pub struct TyId(u32);

impl View for TyId {
    type V = nat;

    closed spec fn view(&self) -> nat {
        self.0 as nat
    }
}

impl TyId {
    /// Returns the numeric index.
    pub fn as_u32(self) -> (r: u32)
        ensures
            r == self@,
    {
        self.0
    }

    /// The rendered index.
    pub fn to_text(self) -> (r: String)
        ensures
            r@ == decimal(self@),
    {
        decimal_of(self.0 as u64)
    }
}

/// Core type representation.
#[derive(Debug, PartialEq, Eq, Hash)]
pub enum Ty {
    /// Placeholder for unresolved type information.
    Unknown,
    /// Unit type.
    Unit,
    /// Boolean type.
    Bool,
    /// Signed 64-bit integer type.
    I64,
    /// UTF-8 string type.
    String,
    /// Homogeneous list.
    List(TyId),
    /// Positional tuple.
    Tuple(Vec<TyId>),
    /// Named fields.
    Record(Vec<(Symbol, TyId)>),
}

/// The mathematical content of a [`Ty`].
#[verifier::ext_equal]
pub enum TyView {
    Unknown,
    Unit,
    Bool,
    I64,
    String,
    List(TyId),
    Tuple(Seq<TyId>),
    Record(Seq<(Seq<char>, TyId)>),
}

impl View for Ty {
    type V = TyView;

    open spec fn view(&self) -> TyView {
        match *self {
            Ty::Unknown => TyView::Unknown,
            Ty::Unit => TyView::Unit,
            Ty::Bool => TyView::Bool,
            Ty::I64 => TyView::I64,
            Ty::String => TyView::String,
            Ty::List(item) => TyView::List(item),
            Ty::Tuple(items) => TyView::Tuple(items@),
            Ty::Record(fields) => TyView::Record(
                fields@.map_values(|field: (Symbol, TyId)| (field.0@, field.1)),
            ),
        }
    }
}

fn same_items(a: &Vec<TyId>, b: &Vec<TyId>) -> (r: bool)
    ensures
        r == (a@ == b@),
{
    if a.len() != b.len() {
        return false;
    }
    let mut i: usize = 0;
    while i < a.len()
        invariant
            i <= a@.len(),
            a@.len() == b@.len(),
            forall|k: int| 0 <= k < i ==> a@[k] == b@[k],
        decreases a.len() - i,
    {
        if a[i] != b[i] {
            return false;
        }
        i += 1;
    }
    assert(a@ =~= b@);
    true
}

fn same_fields(a: &Vec<(Symbol, TyId)>, b: &Vec<(Symbol, TyId)>) -> (r: bool)
    ensures
        r == (a@.map_values(|field: (Symbol, TyId)| (field.0@, field.1)) == b@.map_values(
            |field: (Symbol, TyId)| (field.0@, field.1),
        )),
{
    let ghost x = a@.map_values(|field: (Symbol, TyId)| (field.0@, field.1));
    let ghost y = b@.map_values(|field: (Symbol, TyId)| (field.0@, field.1));
    if a.len() != b.len() {
        assert(x.len() != y.len());
        return false;
    }
    let mut i: usize = 0;
    while i < a.len()
        invariant
            i <= a@.len(),
            a@.len() == b@.len(),
            x == a@.map_values(|field: (Symbol, TyId)| (field.0@, field.1)),
            y == b@.map_values(|field: (Symbol, TyId)| (field.0@, field.1)),
            forall|k: int| 0 <= k < i ==> x[k] == y[k],
        decreases a.len() - i,
    {
        if !a[i].0.same(&b[i].0) || a[i].1 != b[i].1 {
            assert(x[i as int] != y[i as int]);
            return false;
        }
        i += 1;
    }
    assert(x =~= y);
    true
}

impl Ty {
    /// Whether two types are the same.
    pub fn same(&self, other: &Ty) -> (r: bool)
        ensures
            r == (self@ == other@),
    {
        match (self, other) {
            (Ty::Unknown, Ty::Unknown) => true,
            (Ty::Unit, Ty::Unit) => true,
            (Ty::Bool, Ty::Bool) => true,
            (Ty::I64, Ty::I64) => true,
            (Ty::String, Ty::String) => true,
            (Ty::List(a), Ty::List(b)) => *a == *b,
            (Ty::Tuple(a), Ty::Tuple(b)) => same_items(a, b),
            (Ty::Record(a), Ty::Record(b)) => same_fields(a, b),
            _ => false,
        }
    }
}

/// Canonical type store with deduplicating interning.
pub struct TypeInterner {
    types: TermArena<Ty>,
}

/// The views of a sequence of types.
pub open spec fn ty_views(types: Seq<Ty>) -> Seq<TyView> {
    types.map_values(|ty: Ty| ty@)
}

impl View for TypeInterner {
    type V = Seq<TyView>;

    closed spec fn view(&self) -> Seq<TyView> {
        ty_views(self.types@)
    }
}

impl TypeInterner {
    /// No type is stored twice.
    pub open spec fn wf(&self) -> bool {
        forall|i: int, j: int| 0 <= i < j < self@.len() ==> self@[i] != self@[j]
    }

    /// Creates a new empty interner.
    pub fn new() -> (r: Self)
        ensures
            r@ == Seq::<TyView>::empty(),
            r.wf(),
    {
        let r = TypeInterner { types: TermArena::new() };
        assert(r@ =~= Seq::<TyView>::empty());
        r
    }

    /// Interns a type and returns its stable ID: that of the same type where
    /// there is one, else the next one.
    pub fn intern(&mut self, ty: Ty) -> (r: TyId)
        requires
            old(self).wf(),
            old(self)@.len() <= u32::MAX,
        ensures
            final(self).wf(),
            old(self)@.contains(ty@) ==> final(self)@ == old(self)@,
            !old(self)@.contains(ty@) ==> final(self)@ == old(self)@.push(ty@),
            r@ < final(self)@.len(),
            final(self)@[r@ as int] == ty@,
    {
        let count: usize = self.types.len();
        let mut i: u32 = 0;
        while (i as usize) < count
            invariant
                i <= count,
                count == self.types@.len(),
                count <= u32::MAX,
                *self == *old(self),
                self.wf(),
                forall|k: int| 0 <= k < i ==> self@[k] != ty@,
            decreases count - i,
        {
            assert(self@[i as int] == self.types@[i as int]@);
            if self.types.get(ArenaId::from_index(i)).same(&ty) {
                return TyId(i);
            }
            i += 1;
        }
        let ghost before = self@;
        let id = self.types.allocate(ty);
        assert(self@ =~= before.push(ty@));
        TyId(id.as_u32())
    }

    /// Looks up an interned type by ID.
    pub fn get(&self, id: TyId) -> (r: &Ty)
        requires
            id@ < self@.len(),
        ensures
            r@ == self@[id@ as int],
    {
        self.types.get(ArenaId::from_index(id.0))
    }

    /// The interned types with their IDs.
    pub fn iter(&self) -> (r: Vec<(TyId, &Ty)>)
        requires
            self@.len() <= u32::MAX,
        ensures
            r@.len() == self@.len(),
            forall|i: int|
                0 <= i < r@.len() ==> (#[trigger] r@[i]).0@ == i && r@[i].1@ == self@[i],
    {
        let count: usize = self.types.len();
        let mut out: Vec<(TyId, &Ty)> = Vec::new();
        let mut i: u32 = 0;
        while (i as usize) < count
            invariant
                i <= count,
                count == self.types@.len(),
                count <= u32::MAX,
                out@.len() == i,
                forall|k: int|
                    0 <= k < i ==> (#[trigger] out@[k]).0@ == k && out@[k].1@ == self@[k],
            decreases count - i,
        {
            out.push((TyId(i), self.types.get(ArenaId::from_index(i))));
            i += 1;
        }
        out
    }

    /// Returns true if an ID belongs to this interner.
    pub fn contains_id(&self, id: TyId) -> (r: bool)
        ensures
            r == (id@ < self@.len()),
    {
        (id.0 as usize) < self.types.len()
    }

    /// Returns the count of unique interned types.
    pub fn len(&self) -> (r: usize)
        ensures
            r == self@.len(),
    {
        self.types.len()
    }

    /// Returns true if no types are interned.
    pub fn is_empty(&self) -> (r: bool)
        ensures
            r == (self@.len() == 0),
    {
        self.types.is_empty()
    }

    /// Attempts to get a type by ID.
    pub fn try_get(&self, id: TyId) -> (r: Option<&Ty>)
        ensures
            match r {
                Some(ty) => id@ < self@.len() && ty@ == self@[id@ as int],
                None => id@ >= self@.len(),
            },
    {
        if self.contains_id(id) {
            Some(self.get(id))
        } else {
            None
        }
    }
}

impl Default for TypeInterner {
    fn default() -> (r: TypeInterner)
        ensures
            r@ == Seq::<TyView>::empty(),
            r.wf(),
    {
        TypeInterner::new()
    }
}

/// Two types interned one after the other get the same ID exactly where they
/// are the same, and interning the second does not move the first.
pub proof fn law_interning_deduplicates(
    start: TypeInterner,
    first: TypeInterner,
    second: TypeInterner,
    a: TyView,
    b: TyView,
    id_a: TyId,
    id_b: TyId,
)
    requires
        start.wf(),
        first.wf(),
        second.wf(),
        first@ == (if start@.contains(a) {
            start@
        } else {
            start@.push(a)
        }),
        id_a@ < first@.len(),
        first@[id_a@ as int] == a,
        second@ == (if first@.contains(b) {
            first@
        } else {
            first@.push(b)
        }),
        id_b@ < second@.len(),
        second@[id_b@ as int] == b,
    ensures
        id_a == id_b <==> a == b,
        second@[id_a@ as int] == a,
{
    if a == b {
        let i = id_a@ as int;
        let j = id_b@ as int;
        assert(first@.contains(b));
        if i < j {
            assert(second@[i] != second@[j]);
        } else if j < i {
            assert(second@[j] != second@[i]);
        }
    }
}

} // verus!
