//! Typed argument schema of extern predicates.

use vstd::prelude::*;

verus! {

/// Argument types of extern predicates. These are catalog-level type names;
/// the host's value representation is its own concern.
#[derive(Clone, Copy, Debug, PartialEq, Eq)]
pub enum ArgType {
    /// A host-owned definition identity.
    Def,
    /// A resolved source span (file and range).
    Span,
    /// A source file.
    File,
    /// A position within a file (zero-based line and column).
    Position,
    /// Plain string data (names, canonical paths, handles).
    String,
    /// A language-level enum, named by its type (such as `DefKind`).
    Enum(&'static str),
    /// Plain integer data.
    Int,
}

impl ArgType {
    /// The catalog-level name of the type.
    pub open spec fn label(self) -> Seq<char> {
        match self {
            ArgType::Def => "Def"@,
            ArgType::Span => "Span"@,
            ArgType::File => "File"@,
            ArgType::Position => "Position"@,
            ArgType::String => "String"@,
            ArgType::Enum(name) => name@,
            ArgType::Int => "Int"@,
        }
    }

    pub fn name(self) -> (r: &'static str)
        ensures
            r@ == self.label(),
    {
        match self {
            ArgType::Def => "Def",
            ArgType::Span => "Span",
            ArgType::File => "File",
            ArgType::Position => "Position",
            ArgType::String => "String",
            ArgType::Enum(name) => name,
            ArgType::Int => "Int",
        }
    }

    /// Whether this is the definition type.
    pub fn is_def(self) -> (r: bool)
        ensures
            r == (self is Def),
    {
        matches!(self, ArgType::Def)
    }
}

/// One argument of a predicate: name and type.
#[derive(Clone, Copy, Debug, PartialEq, Eq)]
pub struct ArgDef {
    pub name: &'static str,
    pub ty: ArgType,
}

} // verus!
