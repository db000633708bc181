//! Plain values that cross the host boundary.

use crate::ir::StableId;
use crate::table::TableKey;
use crate::text::{
    lemma_text_irreflexive, lemma_text_total, lemma_text_transitive, owned, str_eq, text_before,
    text_less,
};
use std::cmp::Ordering;
use vstd::prelude::*;
use vstd::std_specs::cmp::{PartialEqIs, PartialEqSpecImpl, PartialOrdIs, PartialOrdSpecImpl};

verus! {

/// Key used to request a scalar input value from the host runtime.
#[derive(Debug, Clone, PartialEq, Eq, Hash, PartialOrd, Ord)]
pub struct ScalarInputKey {
    source: StableId,
    name: String,
}

impl View for ScalarInputKey {
    type V = (u64, Seq<char>);

    closed spec fn view(&self) -> (u64, Seq<char>) {
        (self.source@, self.name@)
    }
}

impl ScalarInputKey {
    /// Creates a new scalar input key.
    pub fn new(source: StableId, name: &str) -> (r: Self)
        ensures
            r@ == (source@, name@),
    {
        Self { source, name: owned(name) }
    }

    /// Returns the stable source ID.
    pub fn source(&self) -> (r: StableId)
        ensures
            r@ == self@.0,
    {
        self.source
    }

    /// Returns the scalar input name.
    pub fn name(&self) -> (r: &str)
        ensures
            r@ == self@.1,
    {
        self.name.as_str()
    }

    /// A copy of the key.
    pub fn copy(&self) -> (r: Self)
        ensures
            r@ == self@,
    {
        Self { source: self.source, name: self.name.clone() }
    }
}

impl TableKey for ScalarInputKey {
    type K = (u64, Seq<char>);

    open spec fn key(&self) -> (u64, Seq<char>) {
        self@
    }

    fn same_key(&self, other: &Self) -> (r: bool) {
        self.source.as_u64() == other.source.as_u64() && str_eq(
            self.name.as_str(),
            other.name.as_str(),
        )
    }
}

/// Stable textual key for host objects used by deterministic ordering.
#[derive(Debug, PartialEq, Eq, Hash, PartialOrd, Ord)]
pub struct StableHandle(String);

impl View for StableHandle {
    type V = Seq<char>;

    closed spec fn view(&self) -> Seq<char> {
        self.0@
    }
}

impl Clone for StableHandle {
    fn clone(&self) -> (r: StableHandle)
        ensures
            r@ == self@,
    {
        StableHandle(self.0.clone())
    }
}

impl StableHandle {
    /// Creates a stable handle.
    pub fn new(value: &str) -> (r: Self)
        ensures
            r@ == value@,
    {
        Self(owned(value))
    }

    /// Returns the textual handle key.
    pub fn as_str(&self) -> (r: &str)
        ensures
            r@ == self@,
    {
        self.0.as_str()
    }
}

/// Stable identifier for the analysis world snapshot used during evaluation.
#[derive(Debug, PartialEq, Eq, Hash, PartialOrd, Ord)]
pub struct WorldStamp(String);

impl View for WorldStamp {
    type V = Seq<char>;

    closed spec fn view(&self) -> Seq<char> {
        self.0@
    }
}

impl Clone for WorldStamp {
    fn clone(&self) -> (r: WorldStamp)
        ensures
            r@ == self@,
    {
        WorldStamp(self.0.clone())
    }
}

impl WorldStamp {
    /// Creates a new world stamp.
    pub fn new(value: &str) -> (r: Self)
        ensures
            r@ == value@,
    {
        Self(owned(value))
    }

    /// Returns the stamp as text.
    pub fn as_str(&self) -> (r: &str)
        ensures
            r@ == self@,
    {
        self.0.as_str()
    }
}

impl Default for WorldStamp {
    fn default() -> (r: WorldStamp)
        ensures
            r@ == "mock-world"@,
    {
        WorldStamp::new("mock-world")
    }
}

/// 0-based line and column in a span key.
#[derive(Debug, Clone, Copy, PartialEq, Eq, Hash, Ord, Structural)]
pub struct SpanCoord {
    line: u32,
    column: u32,
}

impl View for SpanCoord {
    type V = (u32, u32);

    closed spec fn view(&self) -> (u32, u32) {
        (self.line, self.column)
    }
}

impl SpanCoord {
    /// Creates a line/column coordinate.
    pub fn new(line: u32, column: u32) -> (r: Self)
        ensures
            r@ == (line, column),
    {
        Self { line, column }
    }

    /// Returns the line number.
    pub fn line(self) -> (r: u32)
        ensures
            r == self@.0,
    {
        self.line
    }

    /// Returns the column number.
    pub fn column(self) -> (r: u32)
        ensures
            r == self@.1,
    {
        self.column
    }
}

/// Stable ordering key for spans.
#[derive(Debug, Eq, Hash, Ord)]
pub struct SpanKey {
    rel_path: String,
    start: SpanCoord,
    end: SpanCoord,
}

/// The mathematical content of a [`SpanKey`].
#[verifier::ext_equal]
pub struct SpanKeyView {
    pub rel_path: Seq<char>,
    pub start: (u32, u32),
    pub end: (u32, u32),
}

impl View for SpanKey {
    type V = SpanKeyView;

    closed spec fn view(&self) -> SpanKeyView {
        SpanKeyView { rel_path: self.rel_path@, start: self.start@, end: self.end@ }
    }
}

impl Clone for SpanKey {
    fn clone(&self) -> (r: SpanKey)
        ensures
            r@ == self@,
    {
        SpanKey { rel_path: self.rel_path.clone(), start: self.start, end: self.end }
    }
}

impl SpanKey {
    /// Creates a span key: a path and the start and end coordinates.
    pub fn new(rel_path: &str, start: SpanCoord, end: SpanCoord) -> (r: Self)
        ensures
            r@ == (SpanKeyView { rel_path: rel_path@, start: start@, end: end@ }),
    {
        Self { rel_path: owned(rel_path), start, end }
    }

    /// Returns the relative path component.
    pub fn rel_path(&self) -> (r: &str)
        ensures
            r@ == self@.rel_path,
    {
        self.rel_path.as_str()
    }

    /// Returns the start coordinate.
    pub fn start(&self) -> (r: SpanCoord)
        ensures
            r@ == self@.start,
    {
        self.start
    }

    /// Returns the end coordinate.
    pub fn end(&self) -> (r: SpanCoord)
        ensures
            r@ == self@.end,
    {
        self.end
    }
}

/// One coordinate stands before another: by line, then by column.
pub open spec fn coord_before(a: (u32, u32), b: (u32, u32)) -> bool {
    a.0 < b.0 || (a.0 == b.0 && a.1 < b.1)
}

/// One span key stands before another: by path, then by start, then by end.
pub open spec fn span_before(a: SpanKeyView, b: SpanKeyView) -> bool {
    text_before(a.rel_path, b.rel_path) || (a.rel_path == b.rel_path && (coord_before(
        a.start,
        b.start,
    ) || (a.start == b.start && coord_before(a.end, b.end))))
}

impl PartialOrd for SpanCoord {
    fn partial_cmp(&self, other: &SpanCoord) -> (r: Option<Ordering>) {
        if self.line < other.line || (self.line == other.line && self.column < other.column) {
            Some(Ordering::Less)
        } else if self.line == other.line && self.column == other.column {
            Some(Ordering::Equal)
        } else {
            Some(Ordering::Greater)
        }
    }
}

impl PartialOrdSpecImpl for SpanCoord {
    open spec fn obeys_partial_cmp_spec() -> bool {
        true
    }

    /// By line, then by column.
    open spec fn partial_cmp_spec(&self, other: &SpanCoord) -> Option<Ordering> {
        if coord_before(self@, other@) {
            Some(Ordering::Less)
        } else if self@ == other@ {
            Some(Ordering::Equal)
        } else {
            Some(Ordering::Greater)
        }
    }
}

impl PartialEq for SpanKey {
    fn eq(&self, other: &SpanKey) -> (r: bool) {
        str_eq(self.rel_path.as_str(), other.rel_path.as_str()) && self.start == other.start
            && self.end == other.end
    }
}

impl PartialEqSpecImpl for SpanKey {
    open spec fn obeys_eq_spec() -> bool {
        true
    }

    open spec fn eq_spec(&self, other: &SpanKey) -> bool {
        self@ == other@
    }
}

impl PartialOrd for SpanKey {
    fn partial_cmp(&self, other: &SpanKey) -> (r: Option<Ordering>) {
        if text_less(self.rel_path.as_str(), other.rel_path.as_str()) {
            return Some(Ordering::Less);
        }
        if !str_eq(self.rel_path.as_str(), other.rel_path.as_str()) {
            return Some(Ordering::Greater);
        }
        proof {
            lemma_text_irreflexive(self@.rel_path);
        }
        if self.start == other.start {
            self.end.partial_cmp(&other.end)
        } else {
            self.start.partial_cmp(&other.start)
        }
    }
}

impl PartialOrdSpecImpl for SpanKey {
    open spec fn obeys_partial_cmp_spec() -> bool {
        true
    }

    /// By path, then by start, then by end.
    open spec fn partial_cmp_spec(&self, other: &SpanKey) -> Option<Ordering> {
        if span_before(self@, other@) {
            Some(Ordering::Less)
        } else if self@ == other@ {
            Some(Ordering::Equal)
        } else {
            Some(Ordering::Greater)
        }
    }
}

/// Coordinates are their line and column, and are ordered by the line first.
pub proof fn law_coords_are_ordered(a: SpanCoord, b: SpanCoord)
    ensures
        a == b <==> a@ == b@,
        a.is_lt(&b) <==> a@.0 < b@.0 || (a@.0 == b@.0 && a@.1 < b@.1),
        a.is_gt(&b) <==> b.is_lt(&a),
{
}

/// Span keys are equal where path, start and end are, and are ordered by the
/// path first, then by the start, then by the end: of two different keys one
/// stands before the other, and not the other way round.
pub proof fn law_span_keys_are_ordered(a: SpanKey, b: SpanKey)
    ensures
        a.is_eq(&b) <==> a@ == b@,
        a.is_lt(&b) <==> text_before(a@.rel_path, b@.rel_path) || (a@.rel_path == b@.rel_path && (
        coord_before(a@.start, b@.start) || (a@.start == b@.start && coord_before(
            a@.end,
            b@.end,
        )))),
        a.is_gt(&b) <==> b.is_lt(&a),
        a@ != b@ ==> a.is_lt(&b) || b.is_lt(&a),
{
    lemma_text_total(a@.rel_path, b@.rel_path);
    lemma_text_irreflexive(a@.rel_path);
    if text_before(a@.rel_path, b@.rel_path) && text_before(b@.rel_path, a@.rel_path) {
        lemma_text_transitive(a@.rel_path, b@.rel_path, a@.rel_path);
    }
}

/// Scalar inputs used by runtime semantics.
///
/// `None` means that the runtime injects its default: a path limit of 1, a
/// path depth of at most 8, and no limit on iterations.
#[derive(Debug, Clone, Copy, PartialEq, Eq, Structural)]
pub struct RuntimeScalarOptions {
    path_limit: Option<u32>,
    path_max_depth: Option<u32>,
    max_iters: Option<u32>,
}

/// The mathematical content of [`RuntimeScalarOptions`].
pub struct RuntimeScalarView {
    pub path_limit: Option<u32>,
    pub path_max_depth: Option<u32>,
    pub max_iters: Option<u32>,
}

impl View for RuntimeScalarOptions {
    type V = RuntimeScalarView;

    closed spec fn view(&self) -> RuntimeScalarView {
        RuntimeScalarView {
            path_limit: self.path_limit,
            path_max_depth: self.path_max_depth,
            max_iters: self.max_iters,
        }
    }
}

impl RuntimeScalarOptions {
    /// Creates unset scalar options.
    pub fn new() -> (r: Self)
        ensures
            r@ == (RuntimeScalarView { path_limit: None, path_max_depth: None, max_iters: None }),
    {
        Self { path_limit: None, path_max_depth: None, max_iters: None }
    }

    /// Sets the path limit.
    pub fn with_path_limit(self, value: u32) -> (r: Self)
        ensures
            r@ == (RuntimeScalarView { path_limit: Some(value), ..self@ }),
    {
        Self {
            path_limit: Some(value),
            path_max_depth: self.path_max_depth,
            max_iters: self.max_iters,
        }
    }

    /// Sets the maximal path depth.
    pub fn with_path_max_depth(self, value: u32) -> (r: Self)
        ensures
            r@ == (RuntimeScalarView { path_max_depth: Some(value), ..self@ }),
    {
        Self {
            path_limit: self.path_limit,
            path_max_depth: Some(value),
            max_iters: self.max_iters,
        }
    }

    /// Sets the maximal number of iterations.
    pub fn with_max_iters(self, value: u32) -> (r: Self)
        ensures
            r@ == (RuntimeScalarView { max_iters: Some(value), ..self@ }),
    {
        Self {
            path_limit: self.path_limit,
            path_max_depth: self.path_max_depth,
            max_iters: Some(value),
        }
    }

    /// Returns the path limit.
    pub fn path_limit(self) -> (r: Option<u32>)
        ensures
            r == self@.path_limit,
    {
        self.path_limit
    }

    /// Returns the maximal path depth.
    pub fn path_max_depth(self) -> (r: Option<u32>)
        ensures
            r == self@.path_max_depth,
    {
        self.path_max_depth
    }

    /// Returns the maximal number of iterations.
    pub fn max_iters(self) -> (r: Option<u32>)
        ensures
            r == self@.max_iters,
    {
        self.max_iters
    }
}

impl Default for RuntimeScalarOptions {
    fn default() -> (r: RuntimeScalarOptions)
        ensures
            r@ == (RuntimeScalarView { path_limit: None, path_max_depth: None, max_iters: None }),
    {
        RuntimeScalarOptions::new()
    }
}

} // verus!
