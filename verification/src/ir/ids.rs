//! Identifiers.

use crate::text::{cat2, decimal, decimal_of, hex16, hex_digits};
use std::marker::PhantomData;
use std::cmp::Ordering;
use vstd::prelude::*;
use vstd::std_specs::cmp::{PartialOrdIs, PartialOrdSpecImpl};

verus! {

/// Strongly typed arena index.
///
/// The wrapped index is not constructible from raw integers outside this
/// crate, which keeps semantic layers from forging IDs.
#[derive(Debug, PartialEq, Eq, Hash, PartialOrd, Ord)]
pub struct ArenaId<T> {
    raw: u32,
    marker: PhantomData<T>,
}

impl<T> Copy for ArenaId<T> {

}

impl<T> Clone for ArenaId<T> {
    fn clone(&self) -> (r: Self)
        ensures
            r == *self,
    {
        *self
    }
}

impl<T> View for ArenaId<T> {
    type V = nat;

    closed spec fn view(&self) -> nat {
        self.raw as nat
    }
}

impl<T> ArenaId<T> {
    pub(crate) fn from_index(raw: u32) -> (r: Self)
        ensures
            r@ == raw,
    {
        ArenaId { raw, marker: PhantomData }
    }

    /// Returns the numeric index.
    pub fn as_u32(self) -> (r: u32)
        ensures
            r == self@,
    {
        self.raw
    }

    /// The rendered index.
    pub fn to_text(self) -> (r: String)
        ensures
            r@ == decimal(self@),
    {
        decimal_of(self.raw as u64)
    }

    /// Returns the numeric index as `usize`.
    pub fn as_usize(self) -> (r: usize)
        ensures
            r == self@,
    {
        self.raw as usize
    }
}

/// Host-stable identifier used at IR boundaries.
#[derive(Clone, Copy, Debug, PartialEq, Eq, Hash, Ord, Structural)]
pub struct StableId(u64);

impl View for StableId {
    type V = u64;

    closed spec fn view(&self) -> u64 {
        self.0
    }
}

/// The sixteen hexadecimal digits of a raw identifier behind `0x`.
pub open spec fn stable_id_text(raw: u64) -> Seq<char> {
    "0x"@ + hex_digits(raw as nat, 16)
}

impl StableId {
    /// Creates a new stable ID from a raw `u64`.
    pub fn new(raw: u64) -> (r: Self)
        ensures
            r@ == raw,
    {
        Self(raw)
    }

    /// Returns the underlying `u64`.
    pub fn as_u64(self) -> (r: u64)
        ensures
            r == self@,
    {
        self.0
    }

    /// The rendered identifier.
    pub fn to_text(self) -> (r: String)
        ensures
            r@ == stable_id_text(self@),
    {
        cat2("0x", hex16(self.0).as_str())
    }
}

impl PartialOrd for StableId {
    fn partial_cmp(&self, other: &StableId) -> (r: Option<Ordering>) {
        if self.0 < other.0 {
            Some(Ordering::Less)
        } else if self.0 == other.0 {
            Some(Ordering::Equal)
        } else {
            Some(Ordering::Greater)
        }
    }
}

impl PartialOrdSpecImpl for StableId {
    open spec fn obeys_partial_cmp_spec() -> bool {
        true
    }

    /// By the raw value.
    open spec fn partial_cmp_spec(&self, other: &StableId) -> Option<Ordering> {
        if self@ < other@ {
            Some(Ordering::Less)
        } else if self@ == other@ {
            Some(Ordering::Equal)
        } else {
            Some(Ordering::Greater)
        }
    }
}

/// Stable IDs with the same raw value are the same, and they are ordered by it.
pub proof fn law_stable_ids_are_their_raw_value(a: StableId, b: StableId)
    ensures
        a == b <==> a@ == b@,
        a.is_lt(&b) <==> a@ < b@,
        a.is_gt(&b) <==> a@ > b@,
{
}

} // verus!
