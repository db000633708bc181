//! Phase-typed programs.

use crate::ir::arena::TermArena;
use crate::ir::diag::{Diagnostics, RaqlDiagnostic};
use crate::ir::ids::ArenaId;
use crate::ir::phase::{AstPhase, PlannedPhase, ProgramPhase, ResolvedPhase, TypedPhase};
use crate::ir::ty::{TyView, TypeInterner};
use crate::text::{decimal, decimal_of, decimal_of_size};
use vstd::prelude::*;
use vstd::string::StringExecFns;

verus! {

/// Errors raised when constructing or mutating program structure.
#[derive(Debug, Clone, Copy, PartialEq, Eq, Structural)]
pub enum ProgramInvariantError {
    /// Root term is not present in the term arena.
    InvalidRootTerm {
        /// Invalid root term ID.
        root: u32,
        /// Arena length at validation time.
        len: usize,
    },
    /// Requested term ID is not present in the term arena.
    InvalidTermId {
        /// Invalid term ID.
        id: u32,
        /// Arena length at validation time.
        len: usize,
    },
}

impl ProgramInvariantError {
    /// The message of the error.
    pub open spec fn text(self) -> Seq<char> {
        match self {
            ProgramInvariantError::InvalidRootTerm { root, len } => "root term id "@ + decimal(
                root as nat,
            ) + " is out of bounds for "@ + decimal(len as nat) + " terms"@,
            ProgramInvariantError::InvalidTermId { id, len } => "term id "@ + decimal(id as nat)
                + " is out of bounds for "@ + decimal(len as nat) + " terms"@,
        }
    }

    /// The message of the error.
    pub fn to_text(self) -> (r: String)
        ensures
            r@ == self.text(),
    {
        match self {
            ProgramInvariantError::InvalidRootTerm { root, len } => {
                let mut out = "root term id ".to_owned();
                out.append(decimal_of(root as u64).as_str());
                out.append(" is out of bounds for ");
                out.append(decimal_of_size(len).as_str());
                out.append(" terms");
                out
            },
            ProgramInvariantError::InvalidTermId { id, len } => {
                let mut out = "term id ".to_owned();
                out.append(decimal_of(id as u64).as_str());
                out.append(" is out of bounds for ");
                out.append(decimal_of_size(len).as_str());
                out.append(" terms");
                out
            },
        }
    }
}

/// Phase-typed IR program.
#[verifier::reject_recursive_types(P)]
pub struct Program<P: ProgramPhase> {
    terms: TermArena<P::Term>,
    root: ArenaId<P::Term>,
    type_interner: TypeInterner,
    diagnostics: Diagnostics,
    phase_data: P::PhaseData,
}

/// Term ID type for a given phase.
pub type TermId<P> = ArenaId<<P as ProgramPhase>::Term>;

/// AST program type.
pub type AstProgram = Program<AstPhase>;

/// Type-checked program type.
pub type TypedProgram = Program<TypedPhase>;

/// Resolved program type.
pub type ResolvedProgram = Program<ResolvedPhase>;

/// Planned program type.
pub type PlannedProgram = Program<PlannedPhase>;

impl<P: ProgramPhase> Program<P> {
    /// The terms of the program.
    pub closed spec fn spec_terms(&self) -> Seq<P::Term> {
        self.terms@
    }

    pub closed spec fn spec_root(&self) -> TermId<P> {
        self.root
    }

    pub closed spec fn spec_types(&self) -> TypeInterner {
        self.type_interner
    }

    pub closed spec fn spec_diagnostics(&self) -> Diagnostics {
        self.diagnostics
    }

    pub closed spec fn spec_data(&self) -> P::PhaseData {
        self.phase_data
    }

    /// The root term belongs to the program, and no type is interned twice.
    pub open spec fn wf(&self) -> bool {
        &&& self.spec_root()@ < self.spec_terms().len()
        &&& self.spec_types().wf()
    }

    /// Everything but the terms and the root is the same.
    pub open spec fn same_rest(&self, other: &Program<P>) -> bool {
        &&& self.spec_types() == other.spec_types()
        &&& self.spec_diagnostics() == other.spec_diagnostics()
        &&& self.spec_data() == other.spec_data()
    }

    /// Creates a new program with a root term.
    pub fn new(root_term: P::Term) -> (r: Self)
        ensures
            r.wf(),
            r.spec_terms() == seq![root_term],
            r.spec_root()@ == 0,
            r.spec_types()@ == Seq::<TyView>::empty(),
            r.spec_diagnostics()@ == Seq::<RaqlDiagnostic>::empty(),
            call_ensures(P::PhaseData::default, (), r.spec_data()),
    {
        Self::with_phase_data(root_term, P::PhaseData::default())
    }

    /// Creates a new program with explicit phase data.
    pub fn with_phase_data(root_term: P::Term, phase_data: P::PhaseData) -> (r: Self)
        ensures
            r.wf(),
            r.spec_terms() == seq![root_term],
            r.spec_root()@ == 0,
            r.spec_types()@ == Seq::<TyView>::empty(),
            r.spec_diagnostics()@ == Seq::<RaqlDiagnostic>::empty(),
            r.spec_data() == phase_data,
    {
        let mut terms = TermArena::new();
        let root = terms.allocate(root_term);
        assert(terms@ =~= seq![root_term]);
        Self {
            terms,
            root,
            type_interner: TypeInterner::new(),
            diagnostics: Diagnostics::new(),
            phase_data,
        }
    }

    /// Reconstructs a program from its parts, where the root is among the
    /// terms.
    pub fn from_parts(
        terms: TermArena<P::Term>,
        root: TermId<P>,
        type_interner: TypeInterner,
        diagnostics: Diagnostics,
        phase_data: P::PhaseData,
    ) -> (r: Result<Self, ProgramInvariantError>)
        requires
            type_interner.wf(),
        ensures
            match r {
                Ok(program) => root@ < terms@.len() && program.wf() && program.spec_terms()
                    == terms@ && program.spec_root() == root && program.spec_types()
                    == type_interner && program.spec_diagnostics() == diagnostics
                    && program.spec_data() == phase_data,
                Err(error) => root@ >= terms@.len() && error == (
                ProgramInvariantError::InvalidRootTerm {
                    root: root@ as u32,
                    len: terms@.len() as usize,
                }),
            },
    {
        if !terms.contains(root) {
            return Err(
                ProgramInvariantError::InvalidRootTerm { root: root.as_u32(), len: terms.len() },
            );
        }
        Ok(Self { terms, root, type_interner, diagnostics, phase_data })
    }

    /// Allocates a term and returns its ID.
    pub fn alloc_term(&mut self, term: P::Term) -> (r: TermId<P>)
        requires
            old(self).wf(),
            old(self).spec_terms().len() <= u32::MAX,
        ensures
            final(self).wf(),
            final(self).spec_terms() == old(self).spec_terms().push(term),
            final(self).spec_root() == old(self).spec_root(),
            final(self).same_rest(old(self)),
            r@ == old(self).spec_terms().len(),
    {
        self.terms.allocate(term)
    }

    /// Returns the root term ID.
    pub fn root(&self) -> (r: TermId<P>)
        ensures
            r == self.spec_root(),
    {
        self.root
    }

    /// Reassigns the root term ID.
    pub fn set_root(&mut self, root: TermId<P>) -> (r: Result<(), ProgramInvariantError>)
        requires
            old(self).wf(),
        ensures
            final(self).wf(),
            final(self).spec_terms() == old(self).spec_terms(),
            final(self).same_rest(old(self)),
            match r {
                Ok(_) => root@ < old(self).spec_terms().len() && final(self).spec_root() == root,
                Err(error) => root@ >= old(self).spec_terms().len() && final(self).spec_root()
                    == old(self).spec_root() && error == (ProgramInvariantError::InvalidRootTerm {
                    root: root@ as u32,
                    len: old(self).spec_terms().len() as usize,
                }),
            },
    {
        if !self.contains_term(root) {
            return Err(
                ProgramInvariantError::InvalidRootTerm {
                    root: root.as_u32(),
                    len: self.terms.len(),
                },
            );
        }
        self.root = root;
        Ok(())
    }

    /// Returns true if this program contains the given term ID.
    pub fn contains_term(&self, id: TermId<P>) -> (r: bool)
        ensures
            r == (id@ < self.spec_terms().len()),
    {
        self.terms.contains(id)
    }

    /// Returns an immutable reference to a term.
    pub fn term(&self, id: TermId<P>) -> (r: Result<&P::Term, ProgramInvariantError>)
        ensures
            match r {
                Ok(term) => id@ < self.spec_terms().len() && *term == self.spec_terms()[id@ as int],
                Err(error) => id@ >= self.spec_terms().len() && error == (
                ProgramInvariantError::InvalidTermId {
                    id: id@ as u32,
                    len: self.spec_terms().len() as usize,
                }),
            },
    {
        if self.contains_term(id) {
            Ok(self.terms.get(id))
        } else {
            Err(ProgramInvariantError::InvalidTermId { id: id.as_u32(), len: self.terms.len() })
        }
    }

    /// Returns a mutable reference to a term.
    pub fn term_mut(&mut self, id: TermId<P>) -> (r: Result<&mut P::Term, ProgramInvariantError>)
        ensures
            match r {
                Ok(term) => id@ < old(self).spec_terms().len() && *term
                    == old(self).spec_terms()[id@ as int] && final(self).spec_terms()
                    == old(self).spec_terms().update(id@ as int, *final(term))
                    && final(self).spec_root() == old(self).spec_root()
                    && final(self).same_rest(old(self)),
                Err(error) => id@ >= old(self).spec_terms().len() && *final(self) == *old(self)
                    && error == (ProgramInvariantError::InvalidTermId {
                    id: id@ as u32,
                    len: old(self).spec_terms().len() as usize,
                }),
            },
    {
        if !self.contains_term(id) {
            return Err(
                ProgramInvariantError::InvalidTermId { id: id.as_u32(), len: self.terms.len() },
            );
        }
        Ok(self.terms.get_mut(id))
    }

    /// Attempts to get a term by ID.
    pub fn try_term(&self, id: TermId<P>) -> (r: Option<&P::Term>)
        ensures
            match r {
                Some(term) => id@ < self.spec_terms().len() && *term
                    == self.spec_terms()[id@ as int],
                None => id@ >= self.spec_terms().len(),
            },
    {
        if self.contains_term(id) {
            Some(self.terms.get(id))
        } else {
            None
        }
    }

    /// Attempts to get a mutable term by ID.
    pub fn try_term_mut(&mut self, id: TermId<P>) -> (r: Option<&mut P::Term>)
        ensures
            match r {
                Some(term) => id@ < old(self).spec_terms().len() && *term
                    == old(self).spec_terms()[id@ as int] && final(self).spec_terms()
                    == old(self).spec_terms().update(id@ as int, *final(term))
                    && final(self).spec_root() == old(self).spec_root()
                    && final(self).same_rest(old(self)),
                None => id@ >= old(self).spec_terms().len() && *final(self) == *old(self),
            },
    {
        if !self.contains_term(id) {
            return None;
        }
        Some(self.terms.get_mut(id))
    }

    /// The terms with their IDs.
    pub fn iter_terms(&self) -> (r: Vec<(TermId<P>, &P::Term)>)
        requires
            self.spec_terms().len() <= u32::MAX,
        ensures
            r@.len() == self.spec_terms().len(),
            forall|i: int|
                0 <= i < r@.len() ==> (#[trigger] r@[i]).0@ == i && *r@[i].1
                    == self.spec_terms()[i],
    {
        self.terms.entries()
    }

    /// Returns the number of terms.
    pub fn term_len(&self) -> (r: usize)
        ensures
            r == self.spec_terms().len(),
    {
        self.terms.len()
    }

    /// Returns the shared type interner.
    pub fn type_interner(&self) -> (r: &TypeInterner)
        ensures
            *r == self.spec_types(),
    {
        &self.type_interner
    }

    /// Returns a mutable shared type interner.
    pub fn type_interner_mut(&mut self) -> (r: &mut TypeInterner)
        ensures
            *r == old(self).spec_types(),
            final(self).spec_types() == *final(r),
            final(self).spec_terms() == old(self).spec_terms(),
            final(self).spec_root() == old(self).spec_root(),
            final(self).spec_diagnostics() == old(self).spec_diagnostics(),
            final(self).spec_data() == old(self).spec_data(),
    {
        &mut self.type_interner
    }

    /// Returns diagnostics collected for this program.
    pub fn diagnostics(&self) -> (r: &Diagnostics)
        ensures
            *r == self.spec_diagnostics(),
    {
        &self.diagnostics
    }

    /// Returns mutable diagnostics storage.
    pub fn diagnostics_mut(&mut self) -> (r: &mut Diagnostics)
        ensures
            *r == old(self).spec_diagnostics(),
            final(self).spec_diagnostics() == *final(r),
            final(self).spec_terms() == old(self).spec_terms(),
            final(self).spec_root() == old(self).spec_root(),
            final(self).spec_types() == old(self).spec_types(),
            final(self).spec_data() == old(self).spec_data(),
    {
        &mut self.diagnostics
    }

    /// Returns phase-specific program data.
    pub fn phase_data(&self) -> (r: &P::PhaseData)
        ensures
            *r == self.spec_data(),
    {
        &self.phase_data
    }

    /// Returns mutable phase-specific program data.
    pub fn phase_data_mut(&mut self) -> (r: &mut P::PhaseData)
        ensures
            *r == old(self).spec_data(),
            final(self).spec_data() == *final(r),
            final(self).spec_terms() == old(self).spec_terms(),
            final(self).spec_root() == old(self).spec_root(),
            final(self).spec_types() == old(self).spec_types(),
            final(self).spec_diagnostics() == old(self).spec_diagnostics(),
    {
        &mut self.phase_data
    }
}

} // verus!
