//! The arena that terms, operations, and types live in.

use crate::ir::ids::ArenaId;
use vstd::prelude::*;

verus! {

#[verifier::external_type_specification]
#[verifier::external_body]
#[verifier::reject_recursive_types(T)]
pub struct ExArena<T>(la_arena::Arena<T>);

/// Values by index, in the order they were allocated.
#[verifier::reject_recursive_types(T)]
pub struct TermArena<T> {
    arena: la_arena::Arena<T>,
    contents: Ghost<Seq<T>>,
}

impl<T> View for TermArena<T> {
    type V = Seq<T>;

    closed spec fn view(&self) -> Seq<T> {
        self.contents@
    }
}

impl<T> TermArena<T> {
    /// `la_arena::Arena::new`: an arena that holds nothing.
    #[verifier::external_body]
    fn new_arena() -> (r: TermArena<T>)
        ensures
            r@ == Seq::<T>::empty(),
    {
        TermArena { arena: la_arena::Arena::new(), contents: Ghost(Seq::empty()) }
    }

    /// `la_arena::Arena::alloc`: puts the value behind those already there and
    /// returns its index. The index is the length before as 32 bits, so the
    /// arena must not hold more values than those count.
    #[verifier::external_body]
    fn allocate_raw(&mut self, value: T) -> (r: u32)
        requires
            old(self)@.len() <= u32::MAX,
        ensures
            final(self)@ == old(self)@.push(value),
            r == old(self)@.len(),
    {
        self.arena.alloc(value).into_raw().into_u32()
    }

    /// `la_arena::Arena::len`: how many values the arena holds.
    #[verifier::external_body]
    fn len_raw(&self) -> (r: usize)
        ensures
            r == self@.len(),
    {
        self.arena.len()
    }

    /// `Index` of `la_arena::Arena`: the value at an index. It panics where
    /// there is none.
    #[verifier::external_body]
    fn index_raw(&self, index: u32) -> (r: &T)
        requires
            index < self@.len(),
        ensures
            *r == self@[index as int],
    {
        &self.arena[la_arena::Idx::from_raw(la_arena::RawIdx::from_u32(index))]
    }

    /// `IndexMut` of `la_arena::Arena`: the value at an index, to be changed
    /// in place; nothing else changes. It panics where there is none.
    #[verifier::external_body]
    fn index_mut_raw(&mut self, index: u32) -> (r: &mut T)
        requires
            index < old(self)@.len(),
        ensures
            *r == old(self)@[index as int],
            final(self)@ == old(self)@.update(index as int, *final(r)),
    {
        &mut self.arena[la_arena::Idx::from_raw(la_arena::RawIdx::from_u32(index))]
    }

    /// Creates an empty arena.
    pub fn new() -> (r: TermArena<T>)
        ensures
            r@ == Seq::<T>::empty(),
    {
        Self::new_arena()
    }

    /// Adds a value and returns its ID.
    pub fn allocate(&mut self, value: T) -> (r: ArenaId<T>)
        requires
            old(self)@.len() <= u32::MAX,
        ensures
            final(self)@ == old(self)@.push(value),
            r@ == old(self)@.len(),
    {
        ArenaId::from_index(self.allocate_raw(value))
    }

    pub fn len(&self) -> (r: usize)
        ensures
            r == self@.len(),
    {
        self.len_raw()
    }

    pub fn is_empty(&self) -> (r: bool)
        ensures
            r == (self@.len() == 0),
    {
        self.len_raw() == 0
    }

    /// Whether the ID belongs to this arena.
    pub fn contains(&self, id: ArenaId<T>) -> (r: bool)
        ensures
            r == (id@ < self@.len()),
    {
        id.as_usize() < self.len_raw()
    }

    pub fn get(&self, id: ArenaId<T>) -> (r: &T)
        requires
            id@ < self@.len(),
        ensures
            *r == self@[id@ as int],
    {
        self.index_raw(id.as_u32())
    }

    pub fn get_mut(&mut self, id: ArenaId<T>) -> (r: &mut T)
        requires
            id@ < old(self)@.len(),
        ensures
            *r == old(self)@[id@ as int],
            final(self)@ == old(self)@.update(id@ as int, *final(r)),
    {
        self.index_mut_raw(id.as_u32())
    }

    /// The values with their IDs, in the order they were allocated.
    pub fn entries(&self) -> (r: Vec<(ArenaId<T>, &T)>)
        requires
            self@.len() <= u32::MAX,
        ensures
            r@.len() == self@.len(),
            forall|i: int|
                0 <= i < r@.len() ==> (#[trigger] r@[i]).0@ == i && *r@[i].1 == self@[i],
    {
        let count: usize = self.len_raw();
        let mut out: Vec<(ArenaId<T>, &T)> = Vec::new();
        let mut i: u32 = 0;
        while (i as usize) < count
            invariant
                i <= count,
                count == self@.len(),
                count <= u32::MAX,
                out@.len() == i,
                forall|k: int|
                    0 <= k < i ==> (#[trigger] out@[k]).0@ == k && *out@[k].1 == self@[k],
            decreases count - i,
        {
            out.push((ArenaId::from_index(i), self.index_raw(i)));
            i += 1;
        }
        out
    }
}

} // verus!
