//! What the lazy runtime lets through.

use crate::ra::capability::{supported_capabilities, supported_names, unsupported_text};
use crate::text::{cat2, str_eq};
use vstd::prelude::*;

verus! {

/// The predicate can be looked up with bound arguments.
pub open spec fn is_lookup(predicate: Seq<char>) -> bool {
    predicate == "def_name"@ || predicate == "def"@ || predicate == "def_kind"@ || predicate
        == "def_span"@ || predicate == "def_path"@ || predicate == "is_public"@ || predicate
        == "in_test"@ || predicate == "span_allowed"@ || predicate == "span_key"@ || predicate
        == "call_edge"@
}

/// Whether the predicate can be looked up with bound arguments.
pub fn lookup_supported(predicate: &str) -> (r: bool)
    ensures
        r == is_lookup(predicate@),
{
    str_eq(predicate, "def_name") || str_eq(predicate, "def") || str_eq(predicate, "def_kind")
        || str_eq(predicate, "def_span") || str_eq(predicate, "def_path") || str_eq(
        predicate,
        "is_public",
    ) || str_eq(predicate, "in_test") || str_eq(predicate, "span_allowed") || str_eq(
        predicate,
        "span_key",
    ) || str_eq(predicate, "call_edge")
}

/// Whether the predicate is answered by lookups alone, where the runtime can do
/// with lookups.
pub fn lookup_only_enabled(fast_path: bool, predicate: &str) -> (r: bool)
    ensures
        r == (fast_path && is_lookup(predicate@)),
{
    fast_path && lookup_supported(predicate)
}

/// What the runtime does with a lookup.
#[derive(Debug, PartialEq, Eq)]
pub enum LookupGate {
    /// It cannot look the predicate up.
    NotHere,
    /// It refuses, with a message.
    Refused(String),
    /// It asks the service.
    Asked,
}

/// What the runtime does with a lookup: only predicates that can be looked up
/// and that the host supports are asked for.
pub fn extern_lookup_gate(predicate: &str) -> (r: LookupGate)
    ensures
        r is NotHere <==> !is_lookup(predicate@),
        r is Asked <==> is_lookup(predicate@) && supported_names().contains(predicate@),
        match r {
            LookupGate::Refused(message) => message@ == unsupported_text(predicate@),
            _ => true,
        },
{
    if !lookup_supported(predicate) {
        return LookupGate::NotHere;
    }
    if !supported_capabilities().contains(predicate) {
        return LookupGate::Refused(
            cat2("unsupported rust-analyzer runtime capability: ", predicate),
        );
    }
    LookupGate::Asked
}

/// What the runtime does with a request for a whole relation: a predicate that
/// the host does not support is refused.
pub fn extern_relation_gate(predicate: &str) -> (r: Result<(), String>)
    ensures
        r is Ok <==> supported_names().contains(predicate@),
        match r {
            Ok(_) => true,
            Err(message) => message@ == unsupported_text(predicate@),
        },
{
    if supported_capabilities().contains(predicate) {
        Ok(())
    } else {
        Err(cat2("unsupported rust-analyzer runtime capability: ", predicate))
    }
}

/// The depth that a requested depth stands for: no less than zero, of which the
/// lower 32 bits count.
pub open spec fn depth_of(depth: i64) -> u32 {
    if depth < 0 {
        0
    } else {
        (depth as u64 % 0x1_0000_0000) as u32
    }
}

/// The depth that a requested depth stands for.
pub fn control_depth(depth: i64) -> (r: u32)
    ensures
        r == depth_of(depth),
{
    if depth < 0 {
        0
    } else {
        (depth as u64 % 0x1_0000_0000) as u32
    }
}

/// No lookup that the host does not support is asked for.
pub proof fn law_lookups_are_supported(predicate: Seq<char>)
    requires
        is_lookup(predicate),
    ensures
        supported_names().contains(predicate),
{
    let names = supported_names();
    assert(names[0] == "def"@ && names[2] == "def_kind"@ && names[3] == "def_name"@ && names[4]
        == "def_path"@ && names[5] == "def_span"@ && names[7] == "call_edge"@ && names[10]
        == "in_test"@ && names[11] == "is_public"@ && names[12] == "span_allowed"@ && names[14]
        == "span_key"@);
}

} // verus!
