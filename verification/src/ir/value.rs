//! Symbols and scalar values.

use crate::text::{owned, str_eq};
use vstd::prelude::*;

verus! {

/// Internable symbol used across IR phases.
#[derive(Debug, PartialEq, Eq, Hash, PartialOrd, Ord)]
pub struct Symbol(String);

impl View for Symbol {
    type V = Seq<char>;

    closed spec fn view(&self) -> Seq<char> {
        self.0@
    }
}

impl Clone for Symbol {
    fn clone(&self) -> (r: Symbol)
        ensures
            r@ == self@,
    {
        Symbol(self.0.clone())
    }
}

impl Symbol {
    /// Creates a new symbol.
    pub fn new(value: &str) -> (r: Self)
        ensures
            r@ == value@,
    {
        Self(owned(value))
    }

    /// Returns the symbol text.
    pub fn as_str(&self) -> (r: &str)
        ensures
            r@ == self@,
    {
        self.0.as_str()
    }

    /// Whether two symbols have the same text.
    pub fn same(&self, other: &Symbol) -> (r: bool)
        ensures
            r == (self@ == other@),
    {
        str_eq(self.0.as_str(), other.0.as_str())
    }
}

/// Scalar literal values used in AST, typed terms, and plans.
#[derive(Debug, PartialEq, Eq, Hash)]
pub enum ScalarValue {
    /// Null sentinel.
    Null,
    /// Boolean scalar.
    Bool(bool),
    /// Signed 64-bit integer.
    I64(i64),
    /// UTF-8 string scalar.
    String(String),
}

/// The mathematical content of a [`ScalarValue`].
pub enum ScalarView {
    Null,
    Bool(bool),
    I64(i64),
    String(Seq<char>),
}

impl View for ScalarValue {
    type V = ScalarView;

    open spec fn view(&self) -> ScalarView {
        match *self {
            ScalarValue::Null => ScalarView::Null,
            ScalarValue::Bool(value) => ScalarView::Bool(value),
            ScalarValue::I64(value) => ScalarView::I64(value),
            ScalarValue::String(value) => ScalarView::String(value@),
        }
    }
}

impl Clone for ScalarValue {
    fn clone(&self) -> (r: ScalarValue)
        ensures
            r@ == self@,
    {
        match self {
            ScalarValue::Null => ScalarValue::Null,
            ScalarValue::Bool(value) => ScalarValue::Bool(*value),
            ScalarValue::I64(value) => ScalarValue::I64(*value),
            ScalarValue::String(value) => ScalarValue::String(value.clone()),
        }
    }
}

impl ScalarValue {
    /// A string scalar.
    pub fn text(value: &str) -> (r: ScalarValue)
        ensures
            r@ == ScalarView::String(value@),
    {
        ScalarValue::String(owned(value))
    }
}

} // verus!
