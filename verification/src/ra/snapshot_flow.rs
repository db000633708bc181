//! Building a snapshot: calls, error flow and control constructs.

use crate::host::{derived_id, DefId, NodeId, SpanId};
use crate::ra::host::{opt_node, HostView, NodeRecordView};
use crate::ra::kinds::{DispatchKind, NodeKind};
use crate::ra::lookup_store::LocalFile;
use crate::ra::node_lookup::{intern_node_from_syntax_row, parent_row, ptr_id};
use crate::ra::rows::{
    same_def, CallEdgeView, CompareView, ConstructView, ConvertView, HandleView, PropagateView,
    WriteView,
};
use crate::ra::snapshot_fns::{
    best_error, fn_error, fn_indexable, resolved_path, FunctionFacts, TypedFacts,
};
use crate::ra::snapshot_text::{crate_path, normalize_canonical_path};
use crate::ra::snapshot_types::{
    loc_indexable, name_or_empty, registered, sole, ty_indexable, type_head, ModuleFacts, Snapshot,
    SnapshotBuilder,
};
use crate::ra::source::{indexable, key_in_text, range_text, range_to_text, span_id_of};
use crate::ra::store::with_row;
use crate::ra::syntax::{parse_tree, parsed_tree, tree_view, SyntaxRow, SyntaxView};
use crate::text::{cat2, owned, str_eq};
use vstd::prelude::*;

verus! {

/// What a call by expression calls.
pub enum SnapTarget {
    Function(ModuleFacts),
    TupleStruct(ModuleFacts),
    TupleVariant(ModuleFacts),
    Closure,
    FnPtr,
    FnImpl,
    /// A path that does not resolve to a callable, as it is written.
    Path(Option<String>),
    /// A closure that is called where it stands.
    ClosureExpr,
    Other,
}

/// A call by expression.
pub struct SnapCall {
    /// The function that the call stands in.
    pub caller: Option<ModuleFacts>,
    pub start: u32,
    pub end: u32,
    /// The range of what is called.
    pub callee_start: u32,
    pub callee_end: u32,
    pub target: SnapTarget,
}

/// How the database classes a method call.
#[derive(Debug, Clone, Copy, PartialEq, Eq, Structural)]
pub enum CallableClass {
    Item,
    FnImpl,
    Closure,
    FnPtr,
}

/// A method call.
pub struct SnapMethodCall {
    /// The function that the call stands in.
    pub caller: Option<ModuleFacts>,
    pub start: u32,
    pub end: u32,
    /// The method, if it can be resolved.
    pub method: Option<ModuleFacts>,
    pub class: Option<CallableClass>,
    pub name: Option<String>,
}

/// How a resolved method call finds its callee.
pub open spec fn class_dispatch(class: Option<CallableClass>) -> DispatchKind {
    match class {
        Some(CallableClass::FnImpl) => DispatchKind::ThroughTrait,
        Some(CallableClass::Closure) => DispatchKind::Closure,
        Some(CallableClass::FnPtr) => DispatchKind::FnPointer,
        _ => DispatchKind::Direct,
    }
}

/// A callable without a definition, by what it is and where it stands.
pub open spec fn synthetic(label: Seq<char>, start: u32, end: u32) -> u64 {
    derived_id("def"@, label + ":"@ + range_text(start, end))
}

/// The snapshot once a callable is told, and its definition.
pub open spec fn callable_def(
    snapshot: Snapshot,
    facts: ModuleFacts,
    label: Seq<char>,
    start: u32,
    end: u32,
) -> (Snapshot, u64) {
    let (told, def) = registered(snapshot, facts, false);
    match def {
        Some(def) => (told, def),
        None => (told, synthetic(label, start, end)),
    }
}

/// The snapshot once what a call calls is told, and its definition.
pub open spec fn call_target(snapshot: Snapshot, call: SnapCall) -> (
    Snapshot,
    (u64, DispatchKind),
) {
    let from = call.callee_start;
    let to = call.callee_end;
    match call.target {
        SnapTarget::Function(facts) => {
            let (told, def) = callable_def(snapshot, facts, "callable_function"@, from, to);
            (told, (def, DispatchKind::Direct))
        },
        SnapTarget::TupleStruct(facts) => {
            let (told, def) = callable_def(snapshot, facts, "callable_tuple_struct"@, from, to);
            (told, (def, DispatchKind::Direct))
        },
        SnapTarget::TupleVariant(facts) => {
            let (told, def) = callable_def(snapshot, facts, "callable_tuple_variant"@, from, to);
            (told, (def, DispatchKind::Direct))
        },
        SnapTarget::Closure => (
            snapshot,
            (synthetic("callable_closure"@, from, to), DispatchKind::Closure),
        ),
        SnapTarget::FnPtr => (
            snapshot,
            (synthetic("callable_fn_ptr"@, from, to), DispatchKind::FnPointer),
        ),
        SnapTarget::FnImpl => (
            snapshot,
            (synthetic("callable_fn_impl"@, from, to), DispatchKind::ThroughTrait),
        ),
        SnapTarget::Path(path) => {
            let meant = match path {
                Some(path) => resolved_path(snapshot, path@),
                None => None,
            };
            match meant {
                Some(def) => (snapshot, (def, DispatchKind::Direct)),
                None => (
                    snapshot,
                    (synthetic("callable_dyn"@, call.start, call.end), DispatchKind::Dyn),
                ),
            }
        },
        SnapTarget::ClosureExpr => (
            snapshot,
            (synthetic("callable_closure"@, call.start, call.end), DispatchKind::Closure),
        ),
        SnapTarget::Other => (
            snapshot,
            (synthetic("callable_dyn"@, call.start, call.end), DispatchKind::Dyn),
        ),
    }
}

/// The snapshot once the method of a method call is told, and its definition:
/// the resolved method, else the only definition with the name.
pub open spec fn method_target(snapshot: Snapshot, call: SnapMethodCall) -> (
    Snapshot,
    (u64, DispatchKind),
) {
    match call.method {
        Some(facts) => {
            let (told, def) = callable_def(
                snapshot,
                facts,
                "method_semantic"@,
                call.start,
                call.end,
            );
            (told, (def, class_dispatch(call.class)))
        },
        None => {
            let meant = match call.name {
                Some(name) => sole(snapshot.names, name@),
                None => None,
            };
            match meant {
                Some(def) => (snapshot, (def, DispatchKind::Direct)),
                None => (
                    snapshot,
                    (synthetic("method_dyn"@, call.start, call.end), DispatchKind::Dyn),
                ),
            }
        },
    }
}

/// The snapshot with a span of the file.
pub open spec fn with_site(snapshot: Snapshot, file: LocalFile, start: u32, end: u32) -> Snapshot {
    match key_in_text(file.rel_path@, file.text@, start, end) {
        Some(key) => Snapshot {
            host: HostView {
                spans: snapshot.host.spans.insert(span_id_of(file.file_id, start, end), key),
                ..snapshot.host
            },
            ..snapshot
        },
        None => snapshot,
    }
}

/// The range is one of the file.
pub open spec fn site_valid(file: LocalFile, start: u32, end: u32) -> bool {
    key_in_text(file.rel_path@, file.text@, start, end) is Some
}

/// The snapshot with a call.
pub open spec fn with_edge(
    snapshot: Snapshot,
    caller: u64,
    target: (u64, DispatchKind),
    site: u64,
) -> Snapshot {
    Snapshot {
        host: HostView {
            call_edges: with_row(
                snapshot.host.call_edges,
                CallEdgeView { caller, callee: target.0, site, dispatch: target.1 },
            ),
            ..snapshot.host
        },
        ..snapshot
    }
}

/// The snapshot once the caller of a call and the call's place are told.
pub open spec fn with_caller(
    snapshot: Snapshot,
    file: LocalFile,
    caller: Option<ModuleFacts>,
    start: u32,
    end: u32,
) -> (Snapshot, Option<u64>) {
    match caller {
        Some(facts) => {
            let (known, def) = registered(snapshot, facts, false);
            match def {
                Some(def) => if site_valid(file, start, end) {
                    (with_site(known, file, start, end), Some(def))
                } else {
                    (known, None)
                },
                None => (known, None),
            }
        },
        None => (snapshot, None),
    }
}

/// The snapshot once a call by expression has been told.
pub open spec fn with_call(snapshot: Snapshot, file: LocalFile, call: SnapCall) -> Snapshot {
    let (known, caller) = with_caller(snapshot, file, call.caller, call.start, call.end);
    match caller {
        Some(caller) => {
            let (told, target) = call_target(known, call);
            with_edge(told, caller, target, span_id_of(file.file_id, call.start, call.end))
        },
        None => known,
    }
}

/// The snapshot once a method call has been told.
pub open spec fn with_method_call(
    snapshot: Snapshot,
    file: LocalFile,
    call: SnapMethodCall,
) -> Snapshot {
    let (known, caller) = with_caller(snapshot, file, call.caller, call.start, call.end);
    match caller {
        Some(caller) => {
            let (told, target) = method_target(known, call);
            with_edge(told, caller, target, span_id_of(file.file_id, call.start, call.end))
        },
        None => known,
    }
}

/// The snapshot once the first `count` calls by expression have been told.
pub open spec fn with_calls(
    snapshot: Snapshot,
    file: LocalFile,
    calls: Seq<SnapCall>,
    count: nat,
) -> Snapshot
    decreases count,
{
    if count == 0 {
        snapshot
    } else {
        with_call(
            with_calls(snapshot, file, calls, (count - 1) as nat),
            file,
            calls[count - 1],
        )
    }
}

/// The snapshot once the first `count` method calls have been told.
pub open spec fn with_method_calls(
    snapshot: Snapshot,
    file: LocalFile,
    calls: Seq<SnapMethodCall>,
    count: nat,
) -> Snapshot
    decreases count,
{
    if count == 0 {
        snapshot
    } else {
        with_method_call(
            with_method_calls(snapshot, file, calls, (count - 1) as nat),
            file,
            calls[count - 1],
        )
    }
}

/// The file of a definition can be indexed, if there is a definition.
pub open spec fn opt_indexable(facts: Option<ModuleFacts>) -> bool {
    match facts {
        Some(facts) => loc_indexable(facts.loc),
        None => true,
    }
}

/// The files that a call's facts speak of can be indexed.
pub open spec fn call_indexable(call: SnapCall) -> bool {
    opt_indexable(call.caller) && match call.target {
        SnapTarget::Function(facts) => loc_indexable(facts.loc),
        SnapTarget::TupleStruct(facts) => loc_indexable(facts.loc),
        SnapTarget::TupleVariant(facts) => loc_indexable(facts.loc),
        _ => true,
    }
}

/// The files that a method call's facts speak of can be indexed.
pub open spec fn method_call_indexable(call: SnapMethodCall) -> bool {
    opt_indexable(call.caller) && opt_indexable(call.method)
}

impl SnapshotBuilder {
    /// A callable without a definition, by what it is and where it stands.
    fn synthetic_def(&self, label: &str, start: u32, end: u32) -> (r: DefId)
        ensures
            r@ == synthetic(label@, start, end),
    {
        let mut token = cat2(label, ":");
        token.append(range_to_text(start, end).as_str());
        self.host.intern_def_from_token(token.as_str())
    }

    /// Tells a callable.
    fn callable(&mut self, facts: &ModuleFacts, label: &str, start: u32, end: u32) -> (r: DefId)
        requires
            old(self).wf(),
            loc_indexable(facts.loc),
        ensures
            final(self).wf(),
            (final(self)@, r@) == callable_def(old(self)@, *facts, label@, start, end),
    {
        match self.register_module_def(facts, false) {
            Some(def) => def,
            None => self.synthetic_def(label, start, end),
        }
    }

    /// Tells what a call calls.
    fn resolve_call_expr_target(&mut self, call: &SnapCall) -> (r: (DefId, DispatchKind))
        requires
            old(self).wf(),
            call_indexable(*call),
        ensures
            final(self).wf(),
            (final(self)@, (r.0@, r.1)) == call_target(old(self)@, *call),
    {
        let from = call.callee_start;
        let to = call.callee_end;
        match &call.target {
            SnapTarget::Function(facts) => {
                let def = self.callable(facts, "callable_function", from, to);
                (def, DispatchKind::Direct)
            },
            SnapTarget::TupleStruct(facts) => {
                let def = self.callable(facts, "callable_tuple_struct", from, to);
                (def, DispatchKind::Direct)
            },
            SnapTarget::TupleVariant(facts) => {
                let def = self.callable(facts, "callable_tuple_variant", from, to);
                (def, DispatchKind::Direct)
            },
            SnapTarget::Closure => (
                self.synthetic_def("callable_closure", from, to),
                DispatchKind::Closure,
            ),
            SnapTarget::FnPtr => (
                self.synthetic_def("callable_fn_ptr", from, to),
                DispatchKind::FnPointer,
            ),
            SnapTarget::FnImpl => (
                self.synthetic_def("callable_fn_impl", from, to),
                DispatchKind::ThroughTrait,
            ),
            SnapTarget::Path(path) => {
                let meant = match path {
                    Some(path) => self.resolve_def_from_type_path(path.as_str()),
                    None => None,
                };
                match meant {
                    Some(def) => (def, DispatchKind::Direct),
                    None => (
                        self.synthetic_def("callable_dyn", call.start, call.end),
                        DispatchKind::Dyn,
                    ),
                }
            },
            SnapTarget::ClosureExpr => (
                self.synthetic_def("callable_closure", call.start, call.end),
                DispatchKind::Closure,
            ),
            SnapTarget::Other => (
                self.synthetic_def("callable_dyn", call.start, call.end),
                DispatchKind::Dyn,
            ),
        }
    }

    /// Tells the method of a method call.
    fn resolve_method_target(&mut self, call: &SnapMethodCall) -> (r: (DefId, DispatchKind))
        requires
            old(self).wf(),
            method_call_indexable(*call),
        ensures
            final(self).wf(),
            (final(self)@, (r.0@, r.1)) == method_target(old(self)@, *call),
    {
        match &call.method {
            Some(facts) => {
                let def = self.callable(facts, "method_semantic", call.start, call.end);
                let dispatch = match call.class {
                    Some(CallableClass::FnImpl) => DispatchKind::ThroughTrait,
                    Some(CallableClass::Closure) => DispatchKind::Closure,
                    Some(CallableClass::FnPtr) => DispatchKind::FnPointer,
                    _ => DispatchKind::Direct,
                };
                (def, dispatch)
            },
            None => {
                let meant = match &call.name {
                    Some(name) => self.sole_def_named(name.as_str()),
                    None => None,
                };
                match meant {
                    Some(def) => (def, DispatchKind::Direct),
                    None => (
                        self.synthetic_def("method_dyn", call.start, call.end),
                        DispatchKind::Dyn,
                    ),
                }
            },
        }
    }

    /// Tells a span of the file.
    pub fn span_for_range(&mut self, file: &LocalFile, start: u32, end: u32) -> (r: Option<SpanId>)
        requires
            old(self).wf(),
            indexable(file.text@),
        ensures
            final(self).wf(),
            final(self)@ == with_site(old(self)@, *file, start, end),
            match r {
                Some(span) => site_valid(*file, start, end) && span@ == span_id_of(
                    file.file_id,
                    start,
                    end,
                ),
                None => !site_valid(*file, start, end),
            },
    {
        proof {
            self.lemma_parts();
        }
        let found = self.host.intern_span_from_text(
            file.file_id,
            file.rel_path.as_str(),
            file.text.as_str(),
            start,
            end,
        );
        proof {
            self.lemma_parts();
        }
        match found {
            Ok(span) => Some(span),
            Err(_) => None,
        }
    }

    /// Tells the caller of a call and the call's place.
    fn caller_and_site(
        &mut self,
        file: &LocalFile,
        caller: &Option<ModuleFacts>,
        start: u32,
        end: u32,
    ) -> (r: Option<(DefId, SpanId)>)
        requires
            old(self).wf(),
            indexable(file.text@),
            opt_indexable(*caller),
        ensures
            final(self).wf(),
            match r {
                Some((def, site)) => (final(self)@, Some(def@)) == with_caller(
                    old(self)@,
                    *file,
                    *caller,
                    start,
                    end,
                ) && site@ == span_id_of(file.file_id, start, end),
                None => (final(self)@, None::<u64>) == with_caller(
                    old(self)@,
                    *file,
                    *caller,
                    start,
                    end,
                ),
            },
    {
        match caller {
            Some(facts) => match self.register_module_def(facts, false) {
                Some(def) => match self.span_for_range(file, start, end) {
                    Some(site) => Some((def, site)),
                    None => None,
                },
                None => None,
            },
            None => None,
        }
    }

    /// Tells the calls of a file.
    pub fn extract_calls_for_file(
        &mut self,
        file: &LocalFile,
        calls: &Vec<SnapCall>,
        method_calls: &Vec<SnapMethodCall>,
    )
        requires
            old(self).wf(),
            indexable(file.text@),
            forall|i: int| 0 <= i < calls@.len() ==> call_indexable(#[trigger] calls@[i]),
            forall|i: int|
                0 <= i < method_calls@.len() ==> method_call_indexable(
                    #[trigger] method_calls@[i],
                ),
        ensures
            final(self).wf(),
            final(self)@ == with_method_calls(
                with_calls(old(self)@, *file, calls@, calls@.len()),
                *file,
                method_calls@,
                method_calls@.len(),
            ),
    {
        let ghost start = self@;
        let mut i: usize = 0;
        while i < calls.len()
            invariant
                self.wf(),
                indexable(file.text@),
                forall|k: int| 0 <= k < calls@.len() ==> call_indexable(#[trigger] calls@[k]),
                i <= calls@.len(),
                self@ == with_calls(start, *file, calls@, i as nat),
            decreases calls.len() - i,
        {
            let call = &calls[i];
            assert(call_indexable(calls@[i as int]));
            match self.caller_and_site(file, &call.caller, call.start, call.end) {
                Some((caller, site)) => {
                    let (callee, dispatch) = self.resolve_call_expr_target(call);
                    proof {
                        self.lemma_parts();
                    }
                    self.host.insert_call_edge(caller, callee, site, dispatch);
                    proof {
                        self.lemma_parts();
                    }
                },
                None => {},
            }
            i += 1;
        }
        let ghost middle = self@;
        let mut j: usize = 0;
        while j < method_calls.len()
            invariant
                self.wf(),
                indexable(file.text@),
                forall|k: int|
                    0 <= k < method_calls@.len() ==> method_call_indexable(
                        #[trigger] method_calls@[k],
                    ),
                j <= method_calls@.len(),
                self@ == with_method_calls(middle, *file, method_calls@, j as nat),
            decreases method_calls.len() - j,
        {
            let call = &method_calls[j];
            assert(method_call_indexable(method_calls@[j as int]));
            match self.caller_and_site(file, &call.caller, call.start, call.end) {
                Some((caller, site)) => {
                    let (callee, dispatch) = self.resolve_method_target(call);
                    proof {
                        self.lemma_parts();
                    }
                    self.host.insert_call_edge(caller, callee, site, dispatch);
                    proof {
                        self.lemma_parts();
                    }
                },
                None => {},
            }
            j += 1;
        }
    }
}

/// A variant that an expression or a pattern names.
pub struct VariantUse {
    /// The enum.
    pub parent: ModuleFacts,
    pub name: String,
}

/// How an expression names the variant that it may build.
#[derive(Debug, Clone, Copy, PartialEq, Eq, Structural)]
pub enum BuildForm {
    /// It calls the variant.
    Call,
    /// It gives the variant's fields.
    Record,
    /// It is the variant's path, which builds it if it has no fields.
    Path { unit: bool },
}

impl BuildForm {
    /// The expression builds the variant that it names.
    pub open spec fn builds(self) -> bool {
        !(self matches BuildForm::Path { unit: false })
    }
}

/// An expression that may build an error.
pub struct BuildSite {
    /// The function that it stands in.
    pub function: Option<FunctionFacts>,
    /// The variant that it names, if it names one.
    pub variant: Option<VariantUse>,
    pub form: BuildForm,
    pub start: u32,
    pub end: u32,
}

/// A `?` on an expression.
pub struct TrySite {
    pub function: Option<FunctionFacts>,
    /// The range of the `?`, if it is there.
    pub question_mark: Option<(u32, u32)>,
    /// The type of the expression, if it can be told.
    pub operand: Option<TypedFacts>,
}

/// An arm of a match.
pub struct ArmSite {
    pub function: Option<FunctionFacts>,
    pub start: u32,
    pub end: u32,
    /// The variants that its pattern names.
    pub variants: Vec<VariantUse>,
}

/// A type with the types behind its references and pointers.
pub struct LayeredType {
    pub typed: TypedFacts,
    /// What it refers or points to, if it does.
    pub inner: Option<Box<LayeredType>>,
}

/// The type of an operand, and what it is adjusted to.
pub struct OperandType {
    pub original: LayeredType,
    pub adjusted: Option<LayeredType>,
}

/// What a binary expression does.
pub enum BinaryUse {
    Compare { operator: String, lhs: Option<OperandType>, rhs: Option<OperandType> },
    Assign { lhs: Option<OperandType> },
    Other,
    /// An operator that cannot be told.
    Unclear,
}

/// A binary expression.
pub struct BinarySite {
    pub function: Option<FunctionFacts>,
    pub start: u32,
    pub end: u32,
    pub operation: BinaryUse,
}

/// The snapshot once the function around an expression is told: its facts, its
/// definition and its error, where it has one.
pub open spec fn error_context(snapshot: Snapshot, function: Option<FunctionFacts>) -> (
    Snapshot,
    Option<(u64, u64)>,
) {
    match function {
        Some(facts) => {
            let (known, def) = registered(snapshot, facts.def, false);
            match def {
                Some(def) => {
                    let (told, error) = fn_error(known, facts);
                    match error {
                        Some(error) => (told, Some((def, error))),
                        None => (told, None),
                    }
                },
                None => (known, None),
            }
        },
        None => (snapshot, None),
    }
}

/// The snapshot once an enum of errors is told, and its definition.
pub open spec fn error_enum(snapshot: Snapshot, facts: ModuleFacts) -> (Snapshot, u64) {
    let (told, def) = registered(snapshot, facts, false);
    match def {
        Some(def) => (told, def),
        None => {
            let path = match facts.canonical {
                Some(path) => crate_path(path@),
                None => "crate::"@ + name_or_empty(facts),
            };
            (told, derived_id("def"@, "error_enum:"@ + path))
        },
    }
}

/// The snapshot once an expression that may build an error has been looked at.
pub open spec fn with_build(snapshot: Snapshot, file: LocalFile, site: BuildSite) -> Snapshot {
    let (known, context) = error_context(snapshot, site.function);
    match (context, site.variant) {
        (Some((caller, error)), Some(variant)) => if !site.form.builds() {
            known
        } else {
            let (told, parent) = error_enum(known, variant.parent);
            if parent == error && site_valid(file, site.start, site.end) {
                let placed = with_site(told, file, site.start, site.end);
                Snapshot {
                    host: HostView {
                        constructs: with_row(
                            placed.host.constructs,
                            ConstructView {
                                error,
                                variant: variant.name@,
                                site: span_id_of(file.file_id, site.start, site.end),
                                function: caller,
                            },
                        ),
                        ..placed.host
                    },
                    ..placed
                }
            } else {
                told
            }
        },
        _ => known,
    }
}

/// The snapshot once a `?` has been looked at.
pub open spec fn with_try(snapshot: Snapshot, file: LocalFile, site: TrySite) -> Snapshot {
    match site.question_mark {
        Some((start, end)) => {
            let (known, context) = error_context(snapshot, site.function);
            match context {
                Some((caller, error)) => if !site_valid(file, start, end) {
                    known
                } else {
                    let span = span_id_of(file.file_id, start, end);
                    let placed = with_site(known, file, start, end);
                    let passed = Snapshot {
                        host: HostView {
                            propagates: with_row(
                                placed.host.propagates,
                                PropagateView { error, site: span, function: caller },
                            ),
                            ..placed.host
                        },
                        ..placed
                    };
                    match (site.operand, site.function) {
                        (Some(operand), Some(function)) => {
                            let (told, source) = best_error(passed, function, operand);
                            match source {
                                Some(source) => if source != error {
                                    Snapshot {
                                        host: HostView {
                                            converts: with_row(
                                                told.host.converts,
                                                ConvertView {
                                                    source,
                                                    target: error,
                                                    site: span,
                                                    function: caller,
                                                },
                                            ),
                                            ..told.host
                                        },
                                        ..told
                                    }
                                } else {
                                    told
                                },
                                None => told,
                            }
                        },
                        _ => passed,
                    }
                },
                None => known,
            }
        },
        None => snapshot,
    }
}

/// The snapshot once the variants of an arm, from `i` on, have been looked at:
/// the first of the function's error that has a place is handled.
pub open spec fn with_arm_variants(
    snapshot: Snapshot,
    file: LocalFile,
    arm: ArmSite,
    caller: u64,
    error: u64,
    i: int,
) -> Snapshot
    decreases arm.variants@.len() - i,
{
    if i < 0 || i >= arm.variants@.len() {
        snapshot
    } else {
        let variant = arm.variants@[i];
        let (told, parent) = error_enum(snapshot, variant.parent);
        if parent == error && site_valid(file, arm.start, arm.end) {
            let placed = with_site(told, file, arm.start, arm.end);
            Snapshot {
                host: HostView {
                    handles: with_row(
                        placed.host.handles,
                        HandleView {
                            error,
                            variant: Some(variant.name@),
                            site: span_id_of(file.file_id, arm.start, arm.end),
                            function: caller,
                        },
                    ),
                    ..placed.host
                },
                ..placed
            }
        } else {
            with_arm_variants(told, file, arm, caller, error, i + 1)
        }
    }
}

/// The snapshot once an arm has been looked at.
pub open spec fn with_arm(snapshot: Snapshot, file: LocalFile, arm: ArmSite) -> Snapshot {
    let (known, context) = error_context(snapshot, arm.function);
    match context {
        Some((caller, error)) => with_arm_variants(known, file, arm, caller, error, 0),
        None => known,
    }
}

/// Whether a type is that of an error, and the snapshot once it is known: its
/// own error type, else what it refers to, else its head decides.
pub open spec fn is_error_type(
    snapshot: Snapshot,
    function: FunctionFacts,
    layered: LayeredType,
    error: u64,
) -> (Snapshot, bool)
    decreases layered,
{
    let (told, own) = best_error(snapshot, function, layered.typed);
    match own {
        Some(own) => (told, own == error),
        None => match layered.inner {
            Some(inner) => is_error_type(told, function, *inner, error),
            None => {
                let (last, head) = type_head(told, layered.typed.ty, None);
                (last, head == error)
            },
        },
    }
}

/// Whether an operand is an error, and the snapshot once it is known.
pub open spec fn is_error_operand(
    snapshot: Snapshot,
    function: FunctionFacts,
    operand: Option<OperandType>,
    error: u64,
) -> (Snapshot, bool) {
    match operand {
        Some(operand) => {
            let (told, original) = is_error_type(snapshot, function, operand.original, error);
            if original {
                (told, true)
            } else {
                match operand.adjusted {
                    Some(adjusted) => is_error_type(told, function, adjusted, error),
                    None => (told, false),
                }
            }
        },
        None => (snapshot, false),
    }
}

/// The snapshot once a binary expression has been looked at.
pub open spec fn with_binary(snapshot: Snapshot, file: LocalFile, site: BinarySite) -> Snapshot {
    let (known, context) = error_context(snapshot, site.function);
    match (context, site.function) {
        (Some((caller, error)), Some(function)) => if site.operation is Unclear || !site_valid(
            file,
            site.start,
            site.end,
        ) {
            known
        } else {
            let placed = with_site(known, file, site.start, site.end);
            let span = span_id_of(file.file_id, site.start, site.end);
            match site.operation {
                BinaryUse::Compare { operator, lhs, rhs } => {
                    let (first, left) = is_error_operand(placed, function, lhs, error);
                    let (second, right) = is_error_operand(first, function, rhs, error);
                    if left || right {
                        Snapshot {
                            host: HostView {
                                compares: with_row(
                                    second.host.compares,
                                    CompareView {
                                        error,
                                        site: span,
                                        operator: operator@,
                                        function: caller,
                                    },
                                ),
                                ..second.host
                            },
                            ..second
                        }
                    } else {
                        second
                    }
                },
                BinaryUse::Assign { lhs } => {
                    let (first, left) = is_error_operand(placed, function, lhs, error);
                    if left {
                        Snapshot {
                            host: HostView {
                                writes: with_row(
                                    first.host.writes,
                                    WriteView { error, site: span, function: caller },
                                ),
                                ..first.host
                            },
                            ..first
                        }
                    } else {
                        first
                    }
                },
                _ => placed,
            }
        },
        _ => known,
    }
}

/// What a file says of errors.
pub struct ErrorFlow {
    /// Calls, record expressions and paths that may build an error.
    pub builds: Vec<BuildSite>,
    pub tries: Vec<TrySite>,
    pub arms: Vec<ArmSite>,
    pub binaries: Vec<BinarySite>,
}

pub open spec fn with_builds(
    snapshot: Snapshot,
    file: LocalFile,
    sites: Seq<BuildSite>,
    count: nat,
) -> Snapshot
    decreases count,
{
    if count == 0 {
        snapshot
    } else {
        with_build(
            with_builds(snapshot, file, sites, (count - 1) as nat),
            file,
            sites[count - 1],
        )
    }
}

pub open spec fn with_tries(
    snapshot: Snapshot,
    file: LocalFile,
    sites: Seq<TrySite>,
    count: nat,
) -> Snapshot
    decreases count,
{
    if count == 0 {
        snapshot
    } else {
        with_try(with_tries(snapshot, file, sites, (count - 1) as nat), file, sites[count - 1])
    }
}

pub open spec fn with_arms(
    snapshot: Snapshot,
    file: LocalFile,
    sites: Seq<ArmSite>,
    count: nat,
) -> Snapshot
    decreases count,
{
    if count == 0 {
        snapshot
    } else {
        with_arm(with_arms(snapshot, file, sites, (count - 1) as nat), file, sites[count - 1])
    }
}

pub open spec fn with_binaries(
    snapshot: Snapshot,
    file: LocalFile,
    sites: Seq<BinarySite>,
    count: nat,
) -> Snapshot
    decreases count,
{
    if count == 0 {
        snapshot
    } else {
        with_binary(
            with_binaries(snapshot, file, sites, (count - 1) as nat),
            file,
            sites[count - 1],
        )
    }
}

/// The snapshot once what a file says of errors has been told.
pub open spec fn with_error_flow(snapshot: Snapshot, file: LocalFile, flow: ErrorFlow) -> Snapshot {
    let built = with_builds(snapshot, file, flow.builds@, flow.builds@.len());
    let tried = with_tries(built, file, flow.tries@, flow.tries@.len());
    let matched = with_arms(tried, file, flow.arms@, flow.arms@.len());
    with_binaries(matched, file, flow.binaries@, flow.binaries@.len())
}

/// The files that a function's facts speak of can be indexed, if there is a
/// function.
pub open spec fn opt_fn_indexable(function: Option<FunctionFacts>) -> bool {
    match function {
        Some(facts) => fn_indexable(facts),
        None => true,
    }
}

pub open spec fn build_indexable(site: BuildSite) -> bool {
    opt_fn_indexable(site.function) && match site.variant {
        Some(variant) => loc_indexable(variant.parent.loc),
        None => true,
    }
}

pub open spec fn try_indexable(site: TrySite) -> bool {
    opt_fn_indexable(site.function) && match site.operand {
        Some(operand) => ty_indexable(operand.ty),
        None => true,
    }
}

pub open spec fn arm_indexable(arm: ArmSite) -> bool {
    opt_fn_indexable(arm.function) && forall|i: int|
        0 <= i < arm.variants@.len() ==> loc_indexable((#[trigger] arm.variants@[i]).parent.loc)
}

pub open spec fn layered_indexable(layered: LayeredType) -> bool
    decreases layered,
{
    ty_indexable(layered.typed.ty) && match layered.inner {
        Some(inner) => layered_indexable(*inner),
        None => true,
    }
}

pub open spec fn operand_indexable(operand: Option<OperandType>) -> bool {
    match operand {
        Some(operand) => layered_indexable(operand.original) && match operand.adjusted {
            Some(adjusted) => layered_indexable(adjusted),
            None => true,
        },
        None => true,
    }
}

pub open spec fn binary_indexable(site: BinarySite) -> bool {
    opt_fn_indexable(site.function) && match site.operation {
        BinaryUse::Compare { lhs, rhs, .. } => operand_indexable(lhs) && operand_indexable(rhs),
        BinaryUse::Assign { lhs } => operand_indexable(lhs),
        _ => true,
    }
}

/// The files that a file's error flow speaks of can be indexed.
pub open spec fn flow_indexable(flow: ErrorFlow) -> bool {
    &&& forall|i: int| 0 <= i < flow.builds@.len() ==> build_indexable(#[trigger] flow.builds@[i])
    &&& forall|i: int| 0 <= i < flow.tries@.len() ==> try_indexable(#[trigger] flow.tries@[i])
    &&& forall|i: int| 0 <= i < flow.arms@.len() ==> arm_indexable(#[trigger] flow.arms@[i])
    &&& forall|i: int|
        0 <= i < flow.binaries@.len() ==> binary_indexable(#[trigger] flow.binaries@[i])
}

impl SnapshotBuilder {
    /// Tells the function around an expression.
    fn function_context(&mut self, function: &Option<FunctionFacts>) -> (r: Option<(DefId, DefId)>)
        requires
            old(self).wf(),
            opt_fn_indexable(*function),
        ensures
            final(self).wf(),
            match r {
                Some((caller, error)) => (final(self)@, Some((caller@, error@))) == error_context(
                    old(self)@,
                    *function,
                ),
                None => (final(self)@, None::<(u64, u64)>) == error_context(
                    old(self)@,
                    *function,
                ),
            },
    {
        match function {
            Some(facts) => match self.register_module_def(&facts.def, false) {
                Some(def) => match self.function_error_def_for_function(facts) {
                    Some(error) => Some((def, error)),
                    None => None,
                },
                None => None,
            },
            None => None,
        }
    }

    /// Tells an enum of errors.
    pub fn register_error_enum_def(&mut self, facts: &ModuleFacts) -> (r: DefId)
        requires
            old(self).wf(),
            loc_indexable(facts.loc),
        ensures
            final(self).wf(),
            (final(self)@, r@) == error_enum(old(self)@, *facts),
    {
        match self.register_module_def(facts, false) {
            Some(def) => def,
            None => {
                let path = match &facts.canonical {
                    Some(path) => normalize_canonical_path(path.as_str()),
                    None => match &facts.name {
                        Some(name) => cat2("crate::", name.as_str()),
                        None => cat2("crate::", ""),
                    },
                };
                self.host.intern_def_from_token(cat2("error_enum:", path.as_str()).as_str())
            },
        }
    }

    fn extract_build(&mut self, file: &LocalFile, site: &BuildSite)
        requires
            old(self).wf(),
            indexable(file.text@),
            build_indexable(*site),
        ensures
            final(self).wf(),
            final(self)@ == with_build(old(self)@, *file, *site),
    {
        match (self.function_context(&site.function), &site.variant) {
            (Some((caller, error)), Some(variant)) => {
                if site.form == (BuildForm::Path { unit: false }) {
                    return;
                }
                let parent = self.register_error_enum_def(&variant.parent);
                if same_def(parent, error) {
                    match self.span_for_range(file, site.start, site.end) {
                        Some(span) => {
                            proof {
                                self.lemma_parts();
                            }
                            self.host.insert_construct(error, variant.name.as_str(), span, caller);
                            proof {
                                self.lemma_parts();
                            }
                        },
                        None => {},
                    }
                }
            },
            _ => {},
        }
    }

    fn extract_try(&mut self, file: &LocalFile, site: &TrySite)
        requires
            old(self).wf(),
            indexable(file.text@),
            try_indexable(*site),
        ensures
            final(self).wf(),
            final(self)@ == with_try(old(self)@, *file, *site),
    {
        let (start, end) = match site.question_mark {
            Some((start, end)) => (start, end),
            None => {
                return;
            },
        };
        let (caller, error) = match self.function_context(&site.function) {
            Some((caller, error)) => (caller, error),
            None => {
                return;
            },
        };
        let span = match self.span_for_range(file, start, end) {
            Some(span) => span,
            None => {
                return;
            },
        };
        proof {
            self.lemma_parts();
        }
        self.host.insert_propagate(error, span, caller);
        proof {
            self.lemma_parts();
        }
        match (&site.operand, &site.function) {
            (Some(operand), Some(function)) => {
                match self.best_effort_result_error_def(function, operand) {
                    Some(source) => {
                        if !same_def(source, error) {
                            proof {
                                self.lemma_parts();
                            }
                            self.host.insert_convert(source, error, span, caller);
                            proof {
                                self.lemma_parts();
                            }
                        }
                    },
                    None => {},
                }
            },
            _ => {},
        }
    }

    fn extract_arm(&mut self, file: &LocalFile, arm: &ArmSite)
        requires
            old(self).wf(),
            indexable(file.text@),
            arm_indexable(*arm),
        ensures
            final(self).wf(),
            final(self)@ == with_arm(old(self)@, *file, *arm),
    {
        let (caller, error) = match self.function_context(&arm.function) {
            Some((caller, error)) => (caller, error),
            None => {
                return;
            },
        };
        let ghost start = self@;
        let mut i: usize = 0;
        while i < arm.variants.len()
            invariant
                self.wf(),
                indexable(file.text@),
                arm_indexable(*arm),
                i <= arm.variants@.len(),
                with_arm(old(self)@, *file, *arm) == with_arm_variants(
                    self@,
                    *file,
                    *arm,
                    caller@,
                    error@,
                    i as int,
                ),
            decreases arm.variants.len() - i,
        {
            let variant = &arm.variants[i];
            assert(loc_indexable(arm.variants@[i as int].parent.loc));
            let parent = self.register_error_enum_def(&variant.parent);
            if same_def(parent, error) {
                match self.span_for_range(file, arm.start, arm.end) {
                    Some(span) => {
                        proof {
                            self.lemma_parts();
                        }
                        self.host.insert_handle_error(
                            error,
                            Some(owned(variant.name.as_str())),
                            span,
                            caller,
                        );
                        proof {
                            self.lemma_parts();
                        }
                        return;
                    },
                    None => {},
                }
            }
            i += 1;
        }
    }

    /// Whether a type is that of an error.
    pub fn matches_error_type(
        &mut self,
        layered: &LayeredType,
        function: &FunctionFacts,
        error: DefId,
    ) -> (r: bool)
        requires
            old(self).wf(),
            fn_indexable(*function),
            layered_indexable(*layered),
        ensures
            final(self).wf(),
            (final(self)@, r) == is_error_type(old(self)@, *function, *layered, error@),
        decreases layered,
    {
        match self.best_effort_result_error_def(function, &layered.typed) {
            Some(own) => {
                return same_def(own, error);
            },
            None => {},
        }
        match &layered.inner {
            Some(inner) => self.matches_error_type(inner, function, error),
            None => {
                let head = self.def_from_type_head(&layered.typed.ty, None);
                same_def(head, error)
            },
        }
    }

    /// Whether an operand is an error.
    pub fn matches_function_error_type(
        &mut self,
        operand: &Option<OperandType>,
        function: &FunctionFacts,
        error: DefId,
    ) -> (r: bool)
        requires
            old(self).wf(),
            fn_indexable(*function),
            operand_indexable(*operand),
        ensures
            final(self).wf(),
            (final(self)@, r) == is_error_operand(old(self)@, *function, *operand, error@),
    {
        match operand {
            Some(operand) => {
                if self.matches_error_type(&operand.original, function, error) {
                    return true;
                }
                match &operand.adjusted {
                    Some(adjusted) => self.matches_error_type(adjusted, function, error),
                    None => false,
                }
            },
            None => false,
        }
    }

    fn extract_binary(&mut self, file: &LocalFile, site: &BinarySite)
        requires
            old(self).wf(),
            indexable(file.text@),
            binary_indexable(*site),
        ensures
            final(self).wf(),
            final(self)@ == with_binary(old(self)@, *file, *site),
    {
        let context = self.function_context(&site.function);
        let (caller, error, function) = match (context, &site.function) {
            (Some((caller, error)), Some(function)) => (caller, error, function),
            _ => {
                return;
            },
        };
        match &site.operation {
            BinaryUse::Unclear => {
                return;
            },
            _ => {},
        }
        let span = match self.span_for_range(file, site.start, site.end) {
            Some(span) => span,
            None => {
                return;
            },
        };
        match &site.operation {
            BinaryUse::Compare { operator, lhs, rhs } => {
                let left = self.matches_function_error_type(lhs, function, error);
                let right = self.matches_function_error_type(rhs, function, error);
                if left || right {
                    proof {
                        self.lemma_parts();
                    }
                    self.host.insert_compare(error, span, operator.as_str(), caller);
                    proof {
                        self.lemma_parts();
                    }
                }
            },
            BinaryUse::Assign { lhs } => {
                if self.matches_function_error_type(lhs, function, error) {
                    proof {
                        self.lemma_parts();
                    }
                    self.host.insert_write(error, span, caller);
                    proof {
                        self.lemma_parts();
                    }
                }
            },
            _ => {},
        }
    }

    /// Tells what a file says of errors.
    pub fn extract_error_flow_for_file(&mut self, file: &LocalFile, flow: &ErrorFlow)
        requires
            old(self).wf(),
            indexable(file.text@),
            flow_indexable(*flow),
        ensures
            final(self).wf(),
            final(self)@ == with_error_flow(old(self)@, *file, *flow),
    {
        let ghost s0 = self@;
        let mut i: usize = 0;
        while i < flow.builds.len()
            invariant
                self.wf(),
                indexable(file.text@),
                flow_indexable(*flow),
                i <= flow.builds@.len(),
                self@ == with_builds(s0, *file, flow.builds@, i as nat),
            decreases flow.builds.len() - i,
        {
            assert(build_indexable(flow.builds@[i as int]));
            self.extract_build(file, &flow.builds[i]);
            i += 1;
        }
        let ghost s1 = self@;
        let mut j: usize = 0;
        while j < flow.tries.len()
            invariant
                self.wf(),
                indexable(file.text@),
                flow_indexable(*flow),
                j <= flow.tries@.len(),
                self@ == with_tries(s1, *file, flow.tries@, j as nat),
            decreases flow.tries.len() - j,
        {
            assert(try_indexable(flow.tries@[j as int]));
            self.extract_try(file, &flow.tries[j]);
            j += 1;
        }
        let ghost s2 = self@;
        let mut k: usize = 0;
        while k < flow.arms.len()
            invariant
                self.wf(),
                indexable(file.text@),
                flow_indexable(*flow),
                k <= flow.arms@.len(),
                self@ == with_arms(s2, *file, flow.arms@, k as nat),
            decreases flow.arms.len() - k,
        {
            assert(arm_indexable(flow.arms@[k as int]));
            self.extract_arm(file, &flow.arms[k]);
            k += 1;
        }
        let ghost s3 = self@;
        let mut m: usize = 0;
        while m < flow.binaries.len()
            invariant
                self.wf(),
                indexable(file.text@),
                flow_indexable(*flow),
                m <= flow.binaries@.len(),
                self@ == with_binaries(s3, *file, flow.binaries@, m as nat),
            decreases flow.binaries.len() - m,
        {
            assert(binary_indexable(flow.binaries@[m as int]));
            self.extract_binary(file, &flow.binaries[m]);
            m += 1;
        }
    }
}

/// The control construct that a syntax kind is.
pub open spec fn flow_kind(kind: Seq<char>) -> Option<NodeKind> {
    if kind == "IF_EXPR"@ {
        Some(NodeKind::If)
    } else if kind == "MATCH_EXPR"@ {
        Some(NodeKind::Match)
    } else if kind == "WHILE_EXPR"@ {
        Some(NodeKind::While)
    } else if kind == "FOR_EXPR"@ {
        Some(NodeKind::For)
    } else if kind == "LOOP_EXPR"@ {
        Some(NodeKind::Loop)
    } else if kind == "BLOCK_EXPR"@ {
        Some(NodeKind::Block)
    } else if kind == "TRY_EXPR"@ {
        Some(NodeKind::Try)
    } else if kind == "MATCH_ARM"@ {
        Some(NodeKind::Arm)
    } else {
        None
    }
}

/// The control construct that a syntax kind is.
pub fn flow_node_kind(kind: &str) -> (r: Option<NodeKind>)
    ensures
        r == flow_kind(kind@),
{
    if str_eq(kind, "IF_EXPR") {
        return Some(NodeKind::If);
    }
    if str_eq(kind, "MATCH_EXPR") {
        return Some(NodeKind::Match);
    }
    if str_eq(kind, "WHILE_EXPR") {
        return Some(NodeKind::While);
    }
    if str_eq(kind, "FOR_EXPR") {
        return Some(NodeKind::For);
    }
    if str_eq(kind, "LOOP_EXPR") {
        return Some(NodeKind::Loop);
    }
    if str_eq(kind, "BLOCK_EXPR") {
        return Some(NodeKind::Block);
    }
    if str_eq(kind, "TRY_EXPR") {
        return Some(NodeKind::Try);
    }
    if str_eq(kind, "MATCH_ARM") {
        return Some(NodeKind::Arm);
    }
    None
}

/// The row is a node that a snapshot keeps.
pub open spec fn is_kept(file: LocalFile, row: SyntaxView) -> bool {
    !row.is_token && flow_kind(row.kind) is Some && site_valid(file, row.start, row.end)
}

/// The nearest node around row `i` that a snapshot keeps.
pub open spec fn kept_parent(file: LocalFile, tree: Seq<SyntaxView>, i: int) -> Option<u64>
    decreases i,
{
    match parent_row(tree, i, i - 1) {
        Some(j) => if 0 <= j < i {
            if is_kept(file, tree[j]) {
                Some(ptr_id(tree[j]))
            } else {
                kept_parent(file, tree, j)
            }
        } else {
            None
        },
        None => None,
    }
}

/// The snapshot once the nodes of the first `count` rows have been told.
pub open spec fn with_kept_nodes(
    snapshot: Snapshot,
    file: LocalFile,
    tree: Seq<SyntaxView>,
    count: nat,
) -> Snapshot
    decreases count,
{
    if count == 0 {
        snapshot
    } else {
        let known = with_kept_nodes(snapshot, file, tree, (count - 1) as nat);
        let row = tree[count - 1];
        if is_kept(file, row) {
            let placed = with_site(known, file, row.start, row.end);
            Snapshot {
                host: HostView {
                    nodes: placed.host.nodes.insert(
                        ptr_id(row),
                        NodeRecordView {
                            kind: flow_kind(row.kind)->0,
                            span: span_id_of(file.file_id, row.start, row.end),
                            parent: kept_parent(file, tree, count - 1),
                        },
                    ),
                    ..placed.host
                },
                ..placed
            }
        } else {
            known
        }
    }
}

/// Whether a row is a node that a snapshot keeps.
fn keeps_row(file: &LocalFile, row: &SyntaxRow) -> (r: bool)
    requires
        indexable(file.text@),
    ensures
        r == is_kept(*file, row@),
{
    !row.is_token && flow_node_kind(row.kind.as_str()).is_some()
        && crate::ra::source::lookup_span_key_from_text(
        file.rel_path.as_str(),
        file.text.as_str(),
        row.start,
        row.end,
    ).is_some()
}

/// The nearest node around row `i` that a snapshot keeps.
fn kept_parent_of(file: &LocalFile, tree: &Vec<SyntaxRow>, i: usize) -> (r: Option<NodeId>)
    requires
        indexable(file.text@),
        i < tree.len(),
    ensures
        opt_node(r) == kept_parent(*file, tree_view(tree@), i as int),
    decreases i,
{
    let ghost view = tree_view(tree@);
    let mut j: usize = i;
    while j > 0
        invariant
            view == tree_view(tree@),
            indexable(file.text@),
            i < tree@.len(),
            j <= i,
            parent_row(view, i as int, i - 1) == parent_row(view, i as int, j - 1),
        decreases j,
    {
        proof {
            assert(view[i as int] == tree@[i as int]@);
            assert(view[j - 1] == tree@[j - 1]@);
        }
        if tree[j - 1].depth < tree[i].depth {
            if keeps_row(file, &tree[j - 1]) {
                return Some(intern_node_from_syntax_row(&tree[j - 1]));
            }
            return kept_parent_of(file, tree, j - 1);
        }
        j -= 1;
    }
    None
}

impl SnapshotBuilder {
    /// Tells the control constructs of a file.
    pub fn extract_nodes_for_file(&mut self, file: &LocalFile)
        requires
            old(self).wf(),
            indexable(file.text@),
        ensures
            final(self).wf(),
            final(self)@ == with_kept_nodes(
                old(self)@,
                *file,
                parsed_tree(file.text@, file.file_id.read_in()),
                parsed_tree(file.text@, file.file_id.read_in()).len(),
            ),
    {
        let tree = parse_tree(file.text.as_str(), file.file_id.edition());
        let ghost view = tree_view(tree@);
        let ghost start = self@;
        let mut i: usize = 0;
        while i < tree.len()
            invariant
                self.wf(),
                indexable(file.text@),
                view == tree_view(tree@),
                i <= tree@.len(),
                self@ == with_kept_nodes(start, *file, view, i as nat),
            decreases tree.len() - i,
        {
            let row = &tree[i];
            assert(view[i as int] == row@);
            match flow_node_kind(row.kind.as_str()) {
                Some(kind) => {
                    if !row.is_token {
                        let parent = kept_parent_of(file, &tree, i);
                        match self.span_for_range(file, row.start, row.end) {
                            Some(span) => {
                                let node = intern_node_from_syntax_row(row);
                                proof {
                                    self.lemma_parts();
                                }
                                self.host.insert_node(node, kind, span, parent);
                                proof {
                                    self.lemma_parts();
                                }
                            },
                            None => {},
                        }
                    }
                },
                None => {},
            }
            i += 1;
        }
    }
}

} // verus!
