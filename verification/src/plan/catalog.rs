//! The catalog registry and its contents.
//!
//! Entries appear here together with their operator, with one exception: the
//! disabled roadmap families (error flow, reference events) have entries with
//! no modes, so that the capability listing shows the roadmap and the planner
//! can name them in capability errors.
//!
//! Scans are declared at their workspace-wide band (C4).

use crate::plan::mode::{AccessKind, Binding, CostClass, ModeDef};
use crate::plan::operator::OperatorId;
use crate::plan::predicate::{Completeness, PredicateDef};
use crate::plan::schema::{ArgDef, ArgType};
use crate::text::{str_eq, str_texts};
use vstd::prelude::*;

verus! {

/// A catalog: the set of extern predicates. [`v0_catalog`] is the single
/// source of truth; tests and generators walk it.
#[derive(Clone, Copy, Debug)]
pub struct Catalog {
    entries: &'static [PredicateDef],
}

impl View for Catalog {
    type V = Seq<PredicateDef>;

    closed spec fn view(&self) -> Seq<PredicateDef> {
        self.entries@
    }
}

impl Catalog {
    /// Every declared mode of every predicate spells out each argument.
    pub open spec fn wf(&self) -> bool {
        forall|i: int| 0 <= i < self@.len() ==> (#[trigger] self@[i]).wf()
    }

    /// Entry `i` is the first one of this name.
    pub open spec fn is_first(&self, name: Seq<char>, i: int) -> bool {
        &&& 0 <= i < self@.len()
        &&& self@[i].name@ == name
        &&& forall|j: int| 0 <= j < i ==> (#[trigger] self@[j]).name@ != name
    }

    /// Some entry has this name.
    pub open spec fn has(&self, name: Seq<char>) -> bool {
        exists|i: int| #[trigger] self.is_first(name, i)
    }

    /// The first entry of this name.
    pub open spec fn lookup(&self, name: Seq<char>) -> PredicateDef {
        self@[choose|i: int| #[trigger] self.is_first(name, i)]
    }

    pub fn new(entries: &'static [PredicateDef]) -> (r: Self)
        ensures
            r@ == entries@,
    {
        Self { entries }
    }

    pub fn entries(&self) -> (r: &'static [PredicateDef])
        ensures
            r@ == self@,
    {
        self.entries
    }

    /// The entry of a name: the first one, where several share it.
    pub fn predicate(&self, name: &str) -> (r: Option<&'static PredicateDef>)
        ensures
            match r {
                Some(found) => self.has(name@) && *found == self.lookup(name@) && found.name@
                    == name@ && self@.contains(*found),
                None => !self.has(name@) && forall|j: int|
                    0 <= j < self@.len() ==> (#[trigger] self@[j]).name@ != name@,
            },
    {
        let mut i: usize = 0;
        while i < self.entries.len()
            invariant
                i <= self@.len(),
                forall|j: int| 0 <= j < i ==> (#[trigger] self@[j]).name@ != name@,
            decreases self.entries.len() - i,
        {
            let found: &'static PredicateDef = &self.entries[i];
            if str_eq(found.name, name) {
                proof {
                    assert(self@[i as int] == *found);
                    assert(self.is_first(name@, i as int));
                    let k = choose|k: int| #[trigger] self.is_first(name@, k);
                    if k < i {
                        assert(self@[k].name@ != name@);
                    } else if k > i {
                        assert(self@[i as int].name@ != name@);
                    }
                }
                return Some(found);
            }
            i += 1;
        }
        None
    }
}

/// The mathematical content of a completeness class.
#[verifier::ext_equal]
pub enum CompletenessView {
    RaExact,
    RaResolved(Seq<Seq<char>>),
    Disabled,
}

/// The mathematical content of a declared mode.
#[verifier::ext_equal]
pub struct ModeView {
    pub pattern: Seq<Binding>,
    pub cost: CostClass,
    pub access: AccessKind,
    pub operator: OperatorId,
    pub ra_primitives: Seq<Seq<char>>,
    pub caveats: Seq<Seq<char>>,
}

/// The mathematical content of a catalog entry.
#[verifier::ext_equal]
pub struct PredicateView {
    pub name: Seq<char>,
    pub args: Seq<(Seq<char>, ArgType)>,
    pub doc: Seq<char>,
    pub completeness: CompletenessView,
    pub modes: Seq<ModeView>,
}

pub open spec fn completeness_view(class: Completeness) -> CompletenessView {
    match class {
        Completeness::RaExact => CompletenessView::RaExact,
        Completeness::RaResolved { caveats } => CompletenessView::RaResolved(str_texts(caveats@)),
        Completeness::Disabled => CompletenessView::Disabled,
    }
}

pub open spec fn mode_view(mode: ModeDef) -> ModeView {
    ModeView {
        pattern: mode.pattern@,
        cost: mode.cost,
        access: mode.access,
        operator: mode.operator,
        ra_primitives: str_texts(mode.ra_primitives@),
        caveats: str_texts(mode.caveats@),
    }
}

pub open spec fn predicate_view(entry: PredicateDef) -> PredicateView {
    PredicateView {
        name: entry.name@,
        args: entry.args@.map_values(|arg: ArgDef| (arg.name@, arg.ty)),
        doc: entry.doc@,
        completeness: completeness_view(entry.completeness),
        modes: entry.modes@.map_values(|mode: ModeDef| mode_view(mode)),
    }
}

/// The contents of the catalog.
pub open spec fn v0_entries() -> Seq<PredicateView> {
    seq![
        PredicateView {
            name: "def_name"@,
            args: seq![("D"@, ArgType::Def), ("Name"@, ArgType::String)],
            doc: "The definition's own name (not its path)."@,
            completeness: CompletenessView::RaExact,
            modes: seq![
                ModeView {
                    pattern: seq![Binding::Bound, Binding::Free],
                    cost: CostClass::C0,
                    access: AccessKind::Keyed,
                    operator: OperatorId::NameOfDef,
                    ra_primitives: seq!["hir name projection"@],
                    caveats: Seq::empty(),
                },
                ModeView {
                    pattern: seq![Binding::Free, Binding::Bound],
                    cost: CostClass::C2,
                    access: AccessKind::Keyed,
                    operator: OperatorId::DefsByExactName,
                    ra_primitives: seq!["ide_db::symbol_index::world_symbols"@],
                    caveats: seq!["fields_not_in_symbol_index"@],
                },
                ModeView {
                    pattern: seq![Binding::Free, Binding::Free],
                    cost: CostClass::C4,
                    access: AccessKind::Scan,
                    operator: OperatorId::DefNamesScan,
                    ra_primitives: seq!["raql_crate_defs (tracked)"@, "hir name projection"@],
                    caveats: Seq::empty(),
                },
            ],
        },
        PredicateView {
            name: "def_at"@,
            args: seq![("File"@, ArgType::File), ("Pos"@, ArgType::Position), ("D"@, ArgType::Def)],
            doc: "The definition referenced or declared at a file position (goto-definition \
                 shape)."@,
            completeness: CompletenessView::RaResolved(seq!["unresolved_positions_absent"@]),
            modes: seq![
                ModeView {
                    pattern: seq![Binding::Bound, Binding::Bound, Binding::Free],
                    cost: CostClass::C1,
                    access: AccessKind::Keyed,
                    operator: OperatorId::DefAtPosition,
                    ra_primitives: seq!["hir::Semantics"@, "IdentClass::classify_node"@],
                    caveats: Seq::empty(),
                },
            ],
        },
        PredicateView {
            name: "def_kind"@,
            args: seq![("D"@, ArgType::Def), ("K"@, ArgType::Enum("DefKind"))],
            doc: "The definition's kind (fn, struct, enum, ...)."@,
            completeness: CompletenessView::RaExact,
            modes: seq![
                ModeView {
                    pattern: seq![Binding::Bound, Binding::Free],
                    cost: CostClass::C0,
                    access: AccessKind::Keyed,
                    operator: OperatorId::KindOfDef,
                    ra_primitives: seq!["value variant projection"@],
                    caveats: Seq::empty(),
                },
            ],
        },
        PredicateView {
            name: "def_path"@,
            args: seq![("D"@, ArgType::Def), ("P"@, ArgType::String)],
            doc: "Canonical module path of the definition (def-map path, not re-export path)."@,
            completeness: CompletenessView::RaExact,
            modes: seq![
                ModeView {
                    pattern: seq![Binding::Bound, Binding::Free],
                    cost: CostClass::C1,
                    access: AccessKind::Keyed,
                    operator: OperatorId::CanonicalPathOfDef,
                    ra_primitives: seq!["hir::Module::path_to_root"@],
                    caveats: Seq::empty(),
                },
            ],
        },
        PredicateView {
            name: "def_span"@,
            args: seq![("D"@, ArgType::Def), ("S"@, ArgType::Span)],
            doc: "Primary-source span of the definition's name (macro-aware)."@,
            completeness: CompletenessView::RaExact,
            modes: seq![
                ModeView {
                    pattern: seq![Binding::Bound, Binding::Free],
                    cost: CostClass::C1,
                    access: AccessKind::Keyed,
                    operator: OperatorId::SpanOfDef,
                    ra_primitives: seq!["hir::HasSource"@, "original_file_range_rooted"@],
                    caveats: Seq::empty(),
                },
            ],
        },
        PredicateView {
            name: "def"@,
            args: seq![("D"@, ArgType::Def)],
            doc: "Every definition in the enumeration scope: crate def-map traversal (modules, \
                 their declarations, fields, variants, impls, and associated items). Items \
                 declared inside function bodies are not part of the module tree and are absent."@,
            completeness: CompletenessView::RaExact,
            modes: seq![
                ModeView {
                    pattern: seq![Binding::Free],
                    cost: CostClass::C4,
                    access: AccessKind::Scan,
                    operator: OperatorId::DefsScan,
                    ra_primitives: seq!["raql_crate_defs (tracked)"@, "hir::Crate::all"@],
                    caveats: Seq::empty(),
                },
            ],
        },
        PredicateView {
            name: "fn_def"@,
            args: seq![("D"@, ArgType::Def)],
            doc: "`def(D)` filtered to functions (free fns and methods) during enumeration. The \
                 explicit way to say \"enumerate functions\"."@,
            completeness: CompletenessView::RaExact,
            modes: seq![
                ModeView {
                    pattern: seq![Binding::Free],
                    cost: CostClass::C4,
                    access: AccessKind::Scan,
                    operator: OperatorId::FnDefsScan,
                    ra_primitives: seq!["raql_crate_defs (tracked)"@, "hir::Crate::all"@],
                    caveats: Seq::empty(),
                },
            ],
        },
        PredicateView {
            name: "callee"@,
            args: seq![
                ("F"@, ArgType::Def),
                ("Callee"@, ArgType::Def),
                ("Site"@, ArgType::Span),
                ("Disp"@, ArgType::Enum("DispatchKind")),
            ],
            doc: "Resolved outgoing call edges of one function body, dispatch classified at the \
                 callsite. Unresolvable callees (closures, fn pointers, constructors) and \
                 macro-generated callsites are absent."@,
            completeness: CompletenessView::RaResolved(seq![
                "unresolved_callsites_absent"@,
                "macro_generated_callsites_absent"@,
            ]),
            modes: seq![
                ModeView {
                    pattern: seq![Binding::Bound, Binding::Free, Binding::Free, Binding::Free],
                    cost: CostClass::C1,
                    access: AccessKind::Keyed,
                    operator: OperatorId::CalleesOfFn,
                    ra_primitives: seq![
                        "raql_callees (tracked)"@,
                        "Semantics"@,
                        "Type::as_callable"@,
                    ],
                    caveats: Seq::empty(),
                },
            ],
        },
        PredicateView {
            name: "caller"@,
            args: seq![
                ("F"@, ArgType::Def),
                ("CallerFn"@, ArgType::Def),
                ("Site"@, ArgType::Span),
                ("Disp"@, ArgType::Enum("DispatchKind")),
            ],
            doc: "Resolved incoming call edges (reference-search backed). Non-call references \
                 are absent; callsites inside closures are attributed to the enclosing named \
                 function."@,
            completeness: CompletenessView::RaResolved(seq![
                "unresolved_references_absent"@,
                "closure_callsites_attributed_to_enclosing_fn"@,
                "macro_definition_body_callsites_absent"@,
            ]),
            modes: seq![
                ModeView {
                    pattern: seq![Binding::Bound, Binding::Free, Binding::Free, Binding::Free],
                    cost: CostClass::C2,
                    access: AccessKind::Keyed,
                    operator: OperatorId::CallersOfFn,
                    ra_primitives: seq!["Definition::usages"@, "ancestors_with_macros"@],
                    caveats: Seq::empty(),
                },
            ],
        },
        PredicateView {
            name: "call_edge"@,
            args: seq![
                ("Caller"@, ArgType::Def),
                ("Callee"@, ArgType::Def),
                ("Site"@, ArgType::Span),
                ("Disp"@, ArgType::Enum("DispatchKind")),
            ],
            doc: "Call edges, composed from `callee` (caller bound) or `caller` (callee bound). \
                 The unbound scan is the rewrite `fn_def(C), callee(C, K, S, D)`: enumeration \
                 expanded through the outgoing operator, never through reference search."@,
            completeness: CompletenessView::RaResolved(seq![
                "unresolved_callsites_absent"@,
                "macro_expansion_spans"@,
            ]),
            modes: seq![
                ModeView {
                    pattern: seq![Binding::Bound, Binding::Free, Binding::Free, Binding::Free],
                    cost: CostClass::C1,
                    access: AccessKind::Keyed,
                    operator: OperatorId::CallEdgesByCaller,
                    ra_primitives: seq!["raql_callees (tracked)"@],
                    caveats: Seq::empty(),
                },
                ModeView {
                    pattern: seq![Binding::Free, Binding::Bound, Binding::Free, Binding::Free],
                    cost: CostClass::C2,
                    access: AccessKind::Keyed,
                    operator: OperatorId::CallEdgesByCallee,
                    ra_primitives: seq!["Definition::usages"@],
                    caveats: Seq::empty(),
                },
                ModeView {
                    pattern: seq![Binding::Free, Binding::Free, Binding::Free, Binding::Free],
                    cost: CostClass::C4,
                    access: AccessKind::Scan,
                    operator: OperatorId::CallEdgesScan,
                    ra_primitives: seq!["raql_crate_defs (tracked)"@, "raql_callees (tracked)"@],
                    caveats: Seq::empty(),
                },
            ],
        },
        PredicateView {
            name: "is_public"@,
            args: seq![("D"@, ArgType::Def)],
            doc: "The definition's declared visibility is exactly `pub` \
                 (`pub(crate)`/`pub(super)`/private are not public). Impls have no visibility: \
                 no row."@,
            completeness: CompletenessView::RaExact,
            modes: seq![
                ModeView {
                    pattern: seq![Binding::Bound],
                    cost: CostClass::C0,
                    access: AccessKind::Keyed,
                    operator: OperatorId::IsPublicFilter,
                    ra_primitives: seq!["hir::HasVisibility"@],
                    caveats: Seq::empty(),
                },
            ],
        },
        PredicateView {
            name: "in_test"@,
            args: seq![("D"@, ArgType::Def)],
            doc: "The definition is test code: a `#[test]` function, or declared under a module \
                 named `tests` anywhere up its module path."@,
            completeness: CompletenessView::RaResolved(seq!["test_modules_detected_by_name_only"@]),
            modes: seq![
                ModeView {
                    pattern: seq![Binding::Bound],
                    cost: CostClass::C1,
                    access: AccessKind::Keyed,
                    operator: OperatorId::InTestFilter,
                    ra_primitives: seq!["hir::Function::is_test"@, "hir::Module::path_to_root"@],
                    caveats: Seq::empty(),
                },
            ],
        },
        PredicateView {
            name: "span_allowed"@,
            args: seq![("S"@, ArgType::Span)],
            doc: "Request-scope filter, not a semantic fact: the span's file lies in the \
                 request's allowed scope (v0: workspace-local source roots; scope options \
                 compile onto this filter)."@,
            completeness: CompletenessView::RaExact,
            modes: seq![
                ModeView {
                    pattern: seq![Binding::Bound],
                    cost: CostClass::C0,
                    access: AccessKind::Keyed,
                    operator: OperatorId::SpanAllowedFilter,
                    ra_primitives: seq!["source-root partition"@],
                    caveats: Seq::empty(),
                },
            ],
        },
        PredicateView {
            name: "handle"@,
            args: seq![("D"@, ArgType::Def), ("H"@, ArgType::String)],
            doc: "The handle of the definition — a semantic selector, never identity. Impl \
                 handles are the self-type's canonical path, ordinal-qualified in stable source \
                 order when several impls share it. Defs with no canonical path have no handle \
                 row."@,
            completeness: CompletenessView::RaExact,
            modes: seq![
                ModeView {
                    pattern: seq![Binding::Bound, Binding::Free],
                    cost: CostClass::C1,
                    access: AccessKind::Keyed,
                    operator: OperatorId::HandleOfDef,
                    ra_primitives: seq!["canonical path via def maps"@, "hir::Impl::all_for_type"@],
                    caveats: Seq::empty(),
                },
            ],
        },
        PredicateView {
            name: "span_key"@,
            args: seq![
                ("S"@, ArgType::Span),
                ("Path"@, ArgType::String),
                ("L0"@, ArgType::Int),
                ("C0"@, ArgType::Int),
                ("L1"@, ArgType::Int),
                ("C1"@, ArgType::Int),
            ],
            doc: "Workspace-relative location projection of a span: path plus zero-based \
                 start/end line and column (`LineIndex` convention; the output boundary renders \
                 1-based)."@,
            completeness: CompletenessView::RaExact,
            modes: seq![
                ModeView {
                    pattern: seq![Binding::Bound, Binding::Free, Binding::Free, Binding::Free, Binding::Free, Binding::Free],
                    cost: CostClass::C0,
                    access: AccessKind::Keyed,
                    operator: OperatorId::SpanKeyOfSpan,
                    ra_primitives: seq!["ide_db::line_index"@, "source-root path"@],
                    caveats: Seq::empty(),
                },
            ],
        },
        PredicateView {
            name: "constructs"@,
            args: seq![
                ("ErrType"@, ArgType::Def),
                ("Variant"@, ArgType::String),
                ("Site"@, ArgType::Span),
                ("Fn"@, ArgType::Def),
            ],
            doc: "Error-flow family: construction sites of an error type. Disabled until it has \
                 an honest RA-native operator."@,
            completeness: CompletenessView::Disabled,
            modes: Seq::empty(),
        },
        PredicateView {
            name: "propagates"@,
            args: seq![("ErrType"@, ArgType::Def), ("Site"@, ArgType::Span), ("Fn"@, ArgType::Def)],
            doc: "Error-flow family: `?`-propagation sites of an error type. Disabled until it \
                 has an honest RA-native operator."@,
            completeness: CompletenessView::Disabled,
            modes: Seq::empty(),
        },
        PredicateView {
            name: "converts"@,
            args: seq![
                ("SrcErr"@, ArgType::Def),
                ("DstErr"@, ArgType::Def),
                ("Site"@, ArgType::Span),
                ("Fn"@, ArgType::Def),
            ],
            doc: "Error-flow family: error-type conversion sites. Disabled until it has an \
                 honest RA-native operator."@,
            completeness: CompletenessView::Disabled,
            modes: Seq::empty(),
        },
        PredicateView {
            name: "handles"@,
            args: seq![
                ("ErrType"@, ArgType::Def),
                ("Variant"@, ArgType::String),
                ("Site"@, ArgType::Span),
                ("Fn"@, ArgType::Def),
            ],
            doc: "Error-flow family: handling sites (match/if-let) of an error type. Disabled \
                 until it has an honest RA-native operator."@,
            completeness: CompletenessView::Disabled,
            modes: Seq::empty(),
        },
        PredicateView {
            name: "compares"@,
            args: seq![
                ("Type"@, ArgType::Def),
                ("Site"@, ArgType::Span),
                ("Op"@, ArgType::String),
                ("Fn"@, ArgType::Def),
            ],
            doc: "Reference events: comparison sites of a type. Disabled until it has an honest \
                 RA-native operator."@,
            completeness: CompletenessView::Disabled,
            modes: Seq::empty(),
        },
        PredicateView {
            name: "writes"@,
            args: seq![("Subject"@, ArgType::Def), ("Site"@, ArgType::Span), ("Fn"@, ArgType::Def)],
            doc: "Reference events: write sites of a place. Disabled until it has an honest \
                 RA-native operator."@,
            completeness: CompletenessView::Disabled,
            modes: Seq::empty(),
        },
    ]
}

/// The catalog.
pub fn v0_catalog() -> (r: Catalog)
    ensures
        r@.map_values(|entry: PredicateDef| predicate_view(entry)) =~~= v0_entries(),
        r.wf(),
{
    Catalog::new(
        &[
    PredicateDef {
        name: "def_name",
        args: &[ArgDef { name: "D", ty: ArgType::Def }, ArgDef { name: "Name", ty: ArgType::String }],
        doc: "The definition's own name (not its path).",
        completeness: Completeness::RaExact,
        modes: &[
            ModeDef {
                pattern: &[Binding::Bound, Binding::Free],
                cost: CostClass::C0,
                access: AccessKind::Keyed,
                operator: OperatorId::NameOfDef,
                ra_primitives: &["hir name projection"],
                caveats: &[],
            },
            ModeDef {
                pattern: &[Binding::Free, Binding::Bound],
                cost: CostClass::C2,
                access: AccessKind::Keyed,
                operator: OperatorId::DefsByExactName,
                ra_primitives: &["ide_db::symbol_index::world_symbols"],
                caveats: &["fields_not_in_symbol_index"],
            },
            ModeDef {
                pattern: &[Binding::Free, Binding::Free],
                cost: CostClass::C4,
                access: AccessKind::Scan,
                operator: OperatorId::DefNamesScan,
                ra_primitives: &["raql_crate_defs (tracked)", "hir name projection"],
                caveats: &[],
            },
        ],
    },
    PredicateDef {
        name: "def_at",
        args: &[
            ArgDef { name: "File", ty: ArgType::File },
            ArgDef { name: "Pos", ty: ArgType::Position },
            ArgDef { name: "D", ty: ArgType::Def },
        ],
        doc: "The definition referenced or declared at a file position \
              (goto-definition shape).",
        completeness: Completeness::RaResolved { caveats: &["unresolved_positions_absent"] },
        modes: &[ModeDef {
            pattern: &[Binding::Bound, Binding::Bound, Binding::Free],
            cost: CostClass::C1,
            access: AccessKind::Keyed,
            operator: OperatorId::DefAtPosition,
            ra_primitives: &["hir::Semantics", "IdentClass::classify_node"],
            caveats: &[],
        }],
    },
    PredicateDef {
        name: "def_kind",
        args: &[ArgDef { name: "D", ty: ArgType::Def }, ArgDef { name: "K", ty: ArgType::Enum("DefKind") }],
        doc: "The definition's kind (fn, struct, enum, ...).",
        completeness: Completeness::RaExact,
        modes: &[ModeDef {
            pattern: &[Binding::Bound, Binding::Free],
            cost: CostClass::C0,
            access: AccessKind::Keyed,
            operator: OperatorId::KindOfDef,
            ra_primitives: &["value variant projection"],
            caveats: &[],
        }],
    },
    PredicateDef {
        name: "def_path",
        args: &[ArgDef { name: "D", ty: ArgType::Def }, ArgDef { name: "P", ty: ArgType::String }],
        doc: "Canonical module path of the definition (def-map path, not \
              re-export path).",
        completeness: Completeness::RaExact,
        modes: &[ModeDef {
            pattern: &[Binding::Bound, Binding::Free],
            cost: CostClass::C1,
            access: AccessKind::Keyed,
            operator: OperatorId::CanonicalPathOfDef,
            ra_primitives: &["hir::Module::path_to_root"],
            caveats: &[],
        }],
    },
    PredicateDef {
        name: "def_span",
        args: &[ArgDef { name: "D", ty: ArgType::Def }, ArgDef { name: "S", ty: ArgType::Span }],
        doc: "Primary-source span of the definition's name (macro-aware).",
        completeness: Completeness::RaExact,
        modes: &[ModeDef {
            pattern: &[Binding::Bound, Binding::Free],
            cost: CostClass::C1,
            access: AccessKind::Keyed,
            operator: OperatorId::SpanOfDef,
            ra_primitives: &["hir::HasSource", "original_file_range_rooted"],
            caveats: &[],
        }],
    },
    PredicateDef {
        name: "def",
        args: &[ArgDef { name: "D", ty: ArgType::Def }],
        doc: "Every definition in the enumeration scope: crate def-map \
              traversal (modules, their declarations, fields, variants, \
              impls, and associated items). Items declared inside function \
              bodies are not part of the module tree and are absent.",
        completeness: Completeness::RaExact,
        modes: &[ModeDef {
            pattern: &[Binding::Free],
            cost: CostClass::C4,
            access: AccessKind::Scan,
            operator: OperatorId::DefsScan,
            ra_primitives: &["raql_crate_defs (tracked)", "hir::Crate::all"],
            caveats: &[],
        }],
    },
    PredicateDef {
        name: "fn_def",
        args: &[ArgDef { name: "D", ty: ArgType::Def }],
        doc: "`def(D)` filtered to functions (free fns and methods) during \
              enumeration. The explicit way to say \"enumerate functions\".",
        completeness: Completeness::RaExact,
        modes: &[ModeDef {
            pattern: &[Binding::Free],
            cost: CostClass::C4,
            access: AccessKind::Scan,
            operator: OperatorId::FnDefsScan,
            ra_primitives: &["raql_crate_defs (tracked)", "hir::Crate::all"],
            caveats: &[],
        }],
    },
    PredicateDef {
        name: "callee",
        args: &[
            ArgDef { name: "F", ty: ArgType::Def },
            ArgDef { name: "Callee", ty: ArgType::Def },
            ArgDef { name: "Site", ty: ArgType::Span },
            ArgDef { name: "Disp", ty: ArgType::Enum("DispatchKind") },
        ],
        doc: "Resolved outgoing call edges of one function body, dispatch \
              classified at the callsite. Unresolvable callees (closures, \
              fn pointers, constructors) and macro-generated callsites are \
              absent.",
        completeness: Completeness::RaResolved {
            caveats: &["unresolved_callsites_absent", "macro_generated_callsites_absent"],
        },
        modes: &[ModeDef {
            pattern: &[Binding::Bound, Binding::Free, Binding::Free, Binding::Free],
            cost: CostClass::C1,
            access: AccessKind::Keyed,
            operator: OperatorId::CalleesOfFn,
            ra_primitives: &["raql_callees (tracked)", "Semantics", "Type::as_callable"],
            caveats: &[],
        }],
    },
    PredicateDef {
        name: "caller",
        args: &[
            ArgDef { name: "F", ty: ArgType::Def },
            ArgDef { name: "CallerFn", ty: ArgType::Def },
            ArgDef { name: "Site", ty: ArgType::Span },
            ArgDef { name: "Disp", ty: ArgType::Enum("DispatchKind") },
        ],
        doc: "Resolved incoming call edges (reference-search backed). \
              Non-call references are absent; callsites inside closures are \
              attributed to the enclosing named function.",
        completeness: Completeness::RaResolved {
            caveats: &[
                "unresolved_references_absent",
                "closure_callsites_attributed_to_enclosing_fn",
                "macro_definition_body_callsites_absent",
            ],
        },
        modes: &[ModeDef {
            pattern: &[Binding::Bound, Binding::Free, Binding::Free, Binding::Free],
            cost: CostClass::C2,
            access: AccessKind::Keyed,
            operator: OperatorId::CallersOfFn,
            ra_primitives: &["Definition::usages", "ancestors_with_macros"],
            caveats: &[],
        }],
    },
    PredicateDef {
        name: "call_edge",
        args: &[
            ArgDef { name: "Caller", ty: ArgType::Def },
            ArgDef { name: "Callee", ty: ArgType::Def },
            ArgDef { name: "Site", ty: ArgType::Span },
            ArgDef { name: "Disp", ty: ArgType::Enum("DispatchKind") },
        ],
        doc: "Call edges, composed from `callee` (caller bound) or `caller` \
              (callee bound). The unbound scan is the rewrite \
              `fn_def(C), callee(C, K, S, D)`: enumeration expanded through \
              the outgoing operator, never through reference search.",
        completeness: Completeness::RaResolved {
            caveats: &["unresolved_callsites_absent", "macro_expansion_spans"],
        },
        modes: &[
            ModeDef {
                pattern: &[Binding::Bound, Binding::Free, Binding::Free, Binding::Free],
                cost: CostClass::C1,
                access: AccessKind::Keyed,
                operator: OperatorId::CallEdgesByCaller,
                ra_primitives: &["raql_callees (tracked)"],
                caveats: &[],
            },
            ModeDef {
                pattern: &[Binding::Free, Binding::Bound, Binding::Free, Binding::Free],
                cost: CostClass::C2,
                access: AccessKind::Keyed,
                operator: OperatorId::CallEdgesByCallee,
                ra_primitives: &["Definition::usages"],
                caveats: &[],
            },
            ModeDef {
                pattern: &[Binding::Free, Binding::Free, Binding::Free, Binding::Free],
                cost: CostClass::C4,
                access: AccessKind::Scan,
                operator: OperatorId::CallEdgesScan,
                ra_primitives: &["raql_crate_defs (tracked)", "raql_callees (tracked)"],
                caveats: &[],
            },
        ],
    },
    PredicateDef {
        name: "is_public",
        args: &[ArgDef { name: "D", ty: ArgType::Def }],
        doc: "The definition's declared visibility is exactly `pub` \
              (`pub(crate)`/`pub(super)`/private are not public). Impls \
              have no visibility: no row.",
        completeness: Completeness::RaExact,
        modes: &[ModeDef {
            pattern: &[Binding::Bound],
            cost: CostClass::C0,
            access: AccessKind::Keyed,
            operator: OperatorId::IsPublicFilter,
            ra_primitives: &["hir::HasVisibility"],
            caveats: &[],
        }],
    },
    PredicateDef {
        name: "in_test",
        args: &[ArgDef { name: "D", ty: ArgType::Def }],
        doc: "The definition is test code: a `#[test]` function, or \
              declared under a module named `tests` anywhere up its module \
              path.",
        completeness: Completeness::RaResolved {
            caveats: &["test_modules_detected_by_name_only"],
        },
        modes: &[ModeDef {
            pattern: &[Binding::Bound],
            cost: CostClass::C1,
            access: AccessKind::Keyed,
            operator: OperatorId::InTestFilter,
            ra_primitives: &["hir::Function::is_test", "hir::Module::path_to_root"],
            caveats: &[],
        }],
    },
    PredicateDef {
        name: "span_allowed",
        args: &[ArgDef { name: "S", ty: ArgType::Span }],
        doc: "Request-scope filter, not a semantic fact: the span's file \
              lies in the request's allowed scope (v0: workspace-local \
              source roots; scope options compile onto this filter).",
        completeness: Completeness::RaExact,
        modes: &[ModeDef {
            pattern: &[Binding::Bound],
            cost: CostClass::C0,
            access: AccessKind::Keyed,
            operator: OperatorId::SpanAllowedFilter,
            ra_primitives: &["source-root partition"],
            caveats: &[],
        }],
    },
    PredicateDef {
        name: "handle",
        args: &[ArgDef { name: "D", ty: ArgType::Def }, ArgDef { name: "H", ty: ArgType::String }],
        doc: "The handle of the definition — a semantic \
              selector, never identity. Impl handles are the self-type's \
              canonical path, ordinal-qualified in stable source order when \
              several impls share it. Defs with no canonical path have no \
              handle row.",
        completeness: Completeness::RaExact,
        modes: &[ModeDef {
            pattern: &[Binding::Bound, Binding::Free],
            cost: CostClass::C1,
            access: AccessKind::Keyed,
            operator: OperatorId::HandleOfDef,
            ra_primitives: &["canonical path via def maps", "hir::Impl::all_for_type"],
            caveats: &[],
        }],
    },
    PredicateDef {
        name: "span_key",
        args: &[
            ArgDef { name: "S", ty: ArgType::Span },
            ArgDef { name: "Path", ty: ArgType::String },
            ArgDef { name: "L0", ty: ArgType::Int },
            ArgDef { name: "C0", ty: ArgType::Int },
            ArgDef { name: "L1", ty: ArgType::Int },
            ArgDef { name: "C1", ty: ArgType::Int },
        ],
        doc: "Workspace-relative location projection of a span: path plus \
              zero-based start/end line and column (`LineIndex` \
              convention; the output boundary renders 1-based).",
        completeness: Completeness::RaExact,
        modes: &[ModeDef {
            pattern: &[
                Binding::Bound,
                Binding::Free,
                Binding::Free,
                Binding::Free,
                Binding::Free,
                Binding::Free,
            ],
            cost: CostClass::C0,
            access: AccessKind::Keyed,
            operator: OperatorId::SpanKeyOfSpan,
            ra_primitives: &["ide_db::line_index", "source-root path"],
            caveats: &[],
        }],
    },
    PredicateDef {
        name: "constructs",
        args: &[
            ArgDef { name: "ErrType", ty: ArgType::Def },
            ArgDef { name: "Variant", ty: ArgType::String },
            ArgDef { name: "Site", ty: ArgType::Span },
            ArgDef { name: "Fn", ty: ArgType::Def },
        ],
        doc: "Error-flow family: construction sites of an error type. \
              Disabled until it has an honest RA-native operator.",
        completeness: Completeness::Disabled,
        modes: &[],
    },
    PredicateDef {
        name: "propagates",
        args: &[
            ArgDef { name: "ErrType", ty: ArgType::Def },
            ArgDef { name: "Site", ty: ArgType::Span },
            ArgDef { name: "Fn", ty: ArgType::Def },
        ],
        doc: "Error-flow family: `?`-propagation sites of an error type. \
              Disabled until it has an honest RA-native operator.",
        completeness: Completeness::Disabled,
        modes: &[],
    },
    PredicateDef {
        name: "converts",
        args: &[
            ArgDef { name: "SrcErr", ty: ArgType::Def },
            ArgDef { name: "DstErr", ty: ArgType::Def },
            ArgDef { name: "Site", ty: ArgType::Span },
            ArgDef { name: "Fn", ty: ArgType::Def },
        ],
        doc: "Error-flow family: error-type conversion sites. Disabled \
              until it has an honest RA-native operator.",
        completeness: Completeness::Disabled,
        modes: &[],
    },
    PredicateDef {
        name: "handles",
        args: &[
            ArgDef { name: "ErrType", ty: ArgType::Def },
            ArgDef { name: "Variant", ty: ArgType::String },
            ArgDef { name: "Site", ty: ArgType::Span },
            ArgDef { name: "Fn", ty: ArgType::Def },
        ],
        doc: "Error-flow family: handling sites (match/if-let) of an error \
              type. Disabled until it has an honest RA-native operator.",
        completeness: Completeness::Disabled,
        modes: &[],
    },
    PredicateDef {
        name: "compares",
        args: &[
            ArgDef { name: "Type", ty: ArgType::Def },
            ArgDef { name: "Site", ty: ArgType::Span },
            ArgDef { name: "Op", ty: ArgType::String },
            ArgDef { name: "Fn", ty: ArgType::Def },
        ],
        doc: "Reference events: comparison sites of a type. Disabled until \
              it has an honest RA-native operator.",
        completeness: Completeness::Disabled,
        modes: &[],
    },
    PredicateDef {
        name: "writes",
        args: &[
            ArgDef { name: "Subject", ty: ArgType::Def },
            ArgDef { name: "Site", ty: ArgType::Span },
            ArgDef { name: "Fn", ty: ArgType::Def },
        ],
        doc: "Reference events: write sites of a place. Disabled until it \
              has an honest RA-native operator.",
        completeness: Completeness::Disabled,
        modes: &[],
    },
        ],
    )
}

} // verus!
