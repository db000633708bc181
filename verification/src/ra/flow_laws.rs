//! What a snapshot tells of errors: each place where one is built, passed on,
//! converted, handled, compared or written, and nothing else.

use crate::ra::host::HostView;
use crate::ra::lookup_store::LocalFile;
use crate::ra::row_laws::{law_rows_are_added, rows_kept, same_flow, same_rows};
use crate::ra::rows::{
    CallEdgeView, CompareView, ConstructView, ConvertView, HandleView, PropagateView, WriteView,
};
use crate::ra::snapshot::{snapshot_of, stamped, with_crates, with_file, with_files, FileFacts};
use crate::ra::snapshot_flow::{
    call_target, error_context, error_enum, is_error_operand, is_error_type, method_target,
    with_arm, with_arm_variants, with_arms, with_binaries, with_binary, with_build, with_builds,
    with_call, with_caller, with_calls, with_error_flow, with_kept_nodes, with_method_call,
    with_method_calls, with_site, with_tries, with_try, ArmSite, BinarySite, BinaryUse, BuildForm,
    BuildSite, ErrorFlow, LayeredType, OperandType, SnapCall, SnapMethodCall, TrySite, VariantUse,
};
use crate::ra::snapshot_fns::{
    alias_error, best_error, fn_error, opt_error, FunctionFacts, TypedFacts,
};
use crate::ra::snapshot_items::ModuleTree;
use crate::ra::snapshot_types::{registered, snapshot_def_id, ModuleFacts, Snapshot, TyFacts};
use crate::ra::source::{key_in_text, span_id_of};
use crate::ra::syntax::{parsed_tree, SyntaxView};
use vstd::prelude::*;

verus! {

proof fn lemma_alias_rows(snapshot: Snapshot, aliases: Seq<TyFacts>, i: int)
    ensures
        same_rows(snapshot.host, alias_error(snapshot, aliases, i).0.host),
    decreases aliases.len() - i,
{
    if 0 <= i < aliases.len() {
        lemma_alias_rows(snapshot, aliases, i + 1);
    }
}

proof fn lemma_best_error_rows(snapshot: Snapshot, facts: FunctionFacts, typed: TypedFacts)
    ensures
        same_rows(snapshot.host, best_error(snapshot, facts, typed).0.host),
{
    lemma_alias_rows(snapshot, facts.aliases@, 0);
}

proof fn lemma_context_rows(snapshot: Snapshot, function: Option<FunctionFacts>)
    ensures
        same_rows(snapshot.host, error_context(snapshot, function).0.host),
{
    if let Some(facts) = function {
        let known = registered(snapshot, facts.def, false).0;
        assert(same_rows(snapshot.host, known.host));
        lemma_fn_error_rows(known, facts);
    }
}

pub proof fn lemma_fn_error_rows(snapshot: Snapshot, facts: FunctionFacts)
    ensures
        same_rows(snapshot.host, fn_error(snapshot, facts).0.host),
{
    if let Some(ret) = facts.ret {
        lemma_best_error_rows(snapshot, facts, ret);
    }
    let first = opt_error(snapshot, facts, facts.ret).0;
    if let Some(ret) = facts.async_ret {
        lemma_best_error_rows(first, facts, ret);
    }
}

proof fn lemma_error_type_rows(
    snapshot: Snapshot,
    function: FunctionFacts,
    layered: LayeredType,
    error: u64,
)
    ensures
        same_rows(snapshot.host, is_error_type(snapshot, function, layered, error).0.host),
    decreases layered,
{
    lemma_best_error_rows(snapshot, function, layered.typed);
    let told = best_error(snapshot, function, layered.typed).0;
    if let Some(inner) = layered.inner {
        lemma_error_type_rows(told, function, *inner, error);
    }
}

proof fn lemma_operand_rows(
    snapshot: Snapshot,
    function: FunctionFacts,
    operand: Option<OperandType>,
    error: u64,
)
    ensures
        same_rows(snapshot.host, is_error_operand(snapshot, function, operand, error).0.host),
{
    if let Some(operand) = operand {
        lemma_error_type_rows(snapshot, function, operand.original, error);
        let told = is_error_type(snapshot, function, operand.original, error).0;
        if let Some(adjusted) = operand.adjusted {
            lemma_error_type_rows(told, function, adjusted, error);
        }
    }
}

/// The range is one of the file.
pub open spec fn in_file(file: LocalFile, start: u32, end: u32) -> bool {
    key_in_text(file.rel_path@, file.text@, start, end) is Some
}

/// The expression builds the variant that it names: it calls it, gives its fields,
/// or is the path of a variant without fields.
pub open spec fn builds_variant(form: BuildForm) -> bool {
    match form {
        BuildForm::Call => true,
        BuildForm::Record => true,
        BuildForm::Path { unit } => unit,
    }
}

/// The expression builds an error of its function, and the row tells of it.
pub open spec fn tells_build(
    known: Snapshot,
    file: LocalFile,
    site: BuildSite,
    row: ConstructView,
) -> bool {
    &&& error_context(known, site.function).1 == Some((row.function, row.error))
    &&& builds_variant(site.form)
    &&& site.variant matches Some(variant) && row.variant == variant.name@ && error_enum(
        error_context(known, site.function).0,
        variant.parent,
    ).1 == row.error
    &&& in_file(file, site.start, site.end)
    &&& row.site == span_id_of(file.file_id, site.start, site.end)
}

proof fn lemma_build(snapshot: Snapshot, file: LocalFile, site: BuildSite)
    ensures
        ({
            let after = with_build(snapshot, file, site).host;
            &&& forall|row: ConstructView| #[trigger]
                after.constructs.contains(row) <==> snapshot.host.constructs.contains(row)
                    || tells_build(snapshot, file, site, row)
            &&& same_rows(snapshot.host, HostView { constructs: snapshot.host.constructs, ..after })
        }),
{
    lemma_context_rows(snapshot, site.function);
    let (known, context) = error_context(snapshot, site.function);
    if let (Some((caller, error)), Some(variant)) = (context, site.variant) {
        let row = ConstructView {
            error,
            variant: variant.name@,
            site: span_id_of(file.file_id, site.start, site.end),
            function: caller,
        };
        law_rows_are_added(snapshot.host.constructs, row);
        assert forall|other: ConstructView|
            tells_build(snapshot, file, site, other) implies other == row by {}
    }
}

/// What a snapshot tells of errors once the first `count` expressions that may build
/// one have been looked at.
proof fn lemma_builds(snapshot: Snapshot, file: LocalFile, sites: Seq<BuildSite>, count: nat)
    requires
        count <= sites.len(),
    ensures
        ({
            let after = with_builds(snapshot, file, sites, count).host;
            &&& forall|row: ConstructView| #[trigger]
                after.constructs.contains(row) <==> snapshot.host.constructs.contains(row)
                    || exists|i: int|
                    0 <= i < count && #[trigger] tells_build(
                        with_builds(snapshot, file, sites, i as nat),
                        file,
                        sites[i],
                        row,
                    )
            &&& same_rows(snapshot.host, HostView { constructs: snapshot.host.constructs, ..after })
        }),
    decreases count,
{
    if count > 0 {
        let n = count - 1;
        lemma_builds(snapshot, file, sites, n as nat);
        let told = with_builds(snapshot, file, sites, n as nat);
        lemma_build(told, file, sites[n]);
        let after = with_builds(snapshot, file, sites, count).host;
        assert forall|row: ConstructView| #[trigger]
            after.constructs.contains(row) <==> snapshot.host.constructs.contains(row) || exists|
                i: int,
            |
                0 <= i < count && #[trigger] tells_build(
                    with_builds(snapshot, file, sites, i as nat),
                    file,
                    sites[i],
                    row,
                ) by {
            if exists|i: int|
                0 <= i < count && #[trigger] tells_build(
                    with_builds(snapshot, file, sites, i as nat),
                    file,
                    sites[i],
                    row,
                ) {
                let i = choose|i: int|
                    0 <= i < count && #[trigger] tells_build(
                        with_builds(snapshot, file, sites, i as nat),
                        file,
                        sites[i],
                        row,
                    );
                assert(i < n || i == n);
            }
        }
    }
}

/// The `?` passes on the error of its function, and the row tells of it.
pub open spec fn tells_pass(
    known: Snapshot,
    file: LocalFile,
    site: TrySite,
    row: PropagateView,
) -> bool {
    site.question_mark matches Some((start, end)) && error_context(known, site.function).1 == Some(
        (row.function, row.error),
    ) && in_file(file, start, end) && row.site == span_id_of(file.file_id, start, end)
}

/// The `?` turns another error into that of its function, and the row tells of it.
pub open spec fn tells_conversion(
    known: Snapshot,
    file: LocalFile,
    site: TrySite,
    row: ConvertView,
) -> bool {
    &&& site.question_mark matches Some((start, end)) && in_file(file, start, end) && row.site
        == span_id_of(file.file_id, start, end)
    &&& error_context(known, site.function).1 == Some((row.function, row.target))
    &&& row.source != row.target
    &&& match (site.operand, site.function) {
        (Some(operand), Some(function)) => best_error(
            passed(known, file, site),
            function,
            operand,
        ).1 == Some(row.source),
        _ => false,
    }
}

/// The snapshot once a `?` that passes an error on has been told.
pub open spec fn passed(known: Snapshot, file: LocalFile, site: TrySite) -> Snapshot {
    let (told, context) = error_context(known, site.function);
    let (start, end) = site.question_mark->0;
    let placed = with_site(told, file, start, end);
    Snapshot {
        host: HostView {
            propagates: crate::ra::store::with_row(
                placed.host.propagates,
                PropagateView {
                    error: (context->0).1,
                    site: span_id_of(file.file_id, start, end),
                    function: (context->0).0,
                },
            ),
            ..placed.host
        },
        ..placed
    }
}

proof fn lemma_try(snapshot: Snapshot, file: LocalFile, site: TrySite)
    ensures
        ({
            let before = snapshot.host;
            let after = with_try(snapshot, file, site).host;
            &&& forall|row: PropagateView| #[trigger]
                after.propagates.contains(row) <==> before.propagates.contains(row)
                    || tells_pass(snapshot, file, site, row)
            &&& forall|row: ConvertView| #[trigger]
                after.converts.contains(row) <==> before.converts.contains(row)
                    || tells_conversion(snapshot, file, site, row)
            &&& same_rows(
                before,
                HostView { propagates: before.propagates, converts: before.converts, ..after },
            )
        }),
{
    lemma_context_rows(snapshot, site.function);
    let (known, context) = error_context(snapshot, site.function);
    if let (Some((start, end)), Some((caller, error))) = (site.question_mark, context) {
        let span = span_id_of(file.file_id, start, end);
        let row = PropagateView { error, site: span, function: caller };
        law_rows_are_added(snapshot.host.propagates, row);
        if let (Some(operand), Some(function)) = (site.operand, site.function) {
            let through = passed(snapshot, file, site);
            lemma_best_error_rows(through, function, operand);
            if let Some(source) = best_error(through, function, operand).1 {
                let turned = ConvertView { source, target: error, site: span, function: caller };
                law_rows_are_added(snapshot.host.converts, turned);
                assert forall|other: ConvertView|
                    tells_conversion(snapshot, file, site, other) implies other == turned by {}
            }
        }
        assert forall|other: PropagateView|
            tells_pass(snapshot, file, site, other) implies other == row by {}
    }
}

proof fn lemma_tries(snapshot: Snapshot, file: LocalFile, sites: Seq<TrySite>, count: nat)
    requires
        count <= sites.len(),
    ensures
        ({
            let before = snapshot.host;
            let after = with_tries(snapshot, file, sites, count).host;
            &&& forall|row: PropagateView| #[trigger]
                after.propagates.contains(row) <==> before.propagates.contains(row) || exists|
                    i: int,
                |
                    0 <= i < count && #[trigger] tells_pass(
                        with_tries(snapshot, file, sites, i as nat),
                        file,
                        sites[i],
                        row,
                    )
            &&& forall|row: ConvertView| #[trigger]
                after.converts.contains(row) <==> before.converts.contains(row) || exists|i: int|
                    0 <= i < count && #[trigger] tells_conversion(
                        with_tries(snapshot, file, sites, i as nat),
                        file,
                        sites[i],
                        row,
                    )
            &&& same_rows(
                before,
                HostView { propagates: before.propagates, converts: before.converts, ..after },
            )
        }),
    decreases count,
{
    if count > 0 {
        let n = count - 1;
        lemma_tries(snapshot, file, sites, n as nat);
        let told = with_tries(snapshot, file, sites, n as nat);
        lemma_try(told, file, sites[n]);
        let before = snapshot.host;
        let after = with_tries(snapshot, file, sites, count).host;
        assert forall|row: PropagateView| #[trigger]
            after.propagates.contains(row) <==> before.propagates.contains(row) || exists|i: int|
                0 <= i < count && #[trigger] tells_pass(
                    with_tries(snapshot, file, sites, i as nat),
                    file,
                    sites[i],
                    row,
                ) by {
            if exists|i: int|
                0 <= i < count && #[trigger] tells_pass(
                    with_tries(snapshot, file, sites, i as nat),
                    file,
                    sites[i],
                    row,
                ) {
                let i = choose|i: int|
                    0 <= i < count && #[trigger] tells_pass(
                        with_tries(snapshot, file, sites, i as nat),
                        file,
                        sites[i],
                        row,
                    );
                assert(i < n || i == n);
            }
        }
        assert forall|row: ConvertView| #[trigger]
            after.converts.contains(row) <==> before.converts.contains(row) || exists|i: int|
                0 <= i < count && #[trigger] tells_conversion(
                    with_tries(snapshot, file, sites, i as nat),
                    file,
                    sites[i],
                    row,
                ) by {
            if exists|i: int|
                0 <= i < count && #[trigger] tells_conversion(
                    with_tries(snapshot, file, sites, i as nat),
                    file,
                    sites[i],
                    row,
                ) {
                let i = choose|i: int|
                    0 <= i < count && #[trigger] tells_conversion(
                        with_tries(snapshot, file, sites, i as nat),
                        file,
                        sites[i],
                        row,
                    );
                assert(i < n || i == n);
            }
        }
    }
}

/// The snapshot once the enums of an arm's first `i` variants have been told.
pub open spec fn arm_known(known: Snapshot, variants: Seq<VariantUse>, i: nat) -> Snapshot
    decreases i,
{
    if i == 0 {
        known
    } else {
        error_enum(arm_known(known, variants, (i - 1) as nat), variants[i - 1].parent).0
    }
}

/// Variant `i` of the arm is of the error, and none before it is.
pub open spec fn first_of_error(
    known: Snapshot,
    variants: Seq<VariantUse>,
    error: u64,
    i: int,
) -> bool {
    &&& 0 <= i < variants.len()
    &&& error_enum(arm_known(known, variants, i as nat), variants[i].parent).1 == error
    &&& forall|k: int|
        0 <= k < i ==> error_enum(
            arm_known(known, variants, k as nat),
            (#[trigger] variants[k]).parent,
        ).1 != error
}

/// The arm handles the error of its function, and the row tells of it by the first
/// of the error's variants that the arm names.
pub open spec fn tells_arm(
    known: Snapshot,
    file: LocalFile,
    arm: ArmSite,
    row: HandleView,
) -> bool {
    &&& error_context(known, arm.function).1 == Some((row.function, row.error))
    &&& in_file(file, arm.start, arm.end)
    &&& row.site == span_id_of(file.file_id, arm.start, arm.end)
    &&& exists|i: int| #[trigger]
        first_of_error(error_context(known, arm.function).0, arm.variants@, row.error, i)
            && row.variant == Some(arm.variants@[i].name@)
}

proof fn lemma_arm_variants(
    known: Snapshot,
    file: LocalFile,
    arm: ArmSite,
    caller: u64,
    error: u64,
    i: nat,
)
    requires
        i <= arm.variants@.len(),
        forall|k: int|
            0 <= k < i ==> error_enum(
                arm_known(known, arm.variants@, k as nat),
                (#[trigger] arm.variants@[k]).parent,
            ).1 != error || !in_file(file, arm.start, arm.end),
    ensures
        ({
            let start = arm_known(known, arm.variants@, i);
            let after = with_arm_variants(start, file, arm, caller, error, i as int).host;
            &&& same_rows(start.host, HostView { handles: start.host.handles, ..after })
            &&& forall|row: HandleView| #[trigger]
                after.handles.contains(row) <==> start.host.handles.contains(row) || (row.function
                    == caller && row.error == error && in_file(file, arm.start, arm.end) && row.site
                    == span_id_of(file.file_id, arm.start, arm.end) && exists|k: int| #[trigger]
                    first_of_error(known, arm.variants@, error, k) && row.variant == Some(
                        arm.variants@[k].name@,
                    ))
        }),
    decreases arm.variants@.len() - i,
{
    let variants = arm.variants@;
    let start = arm_known(known, variants, i);
    let after = with_arm_variants(start, file, arm, caller, error, i as int).host;
    if i < variants.len() {
        let (told, parent) = error_enum(start, variants[i as int].parent);
        assert(arm_known(known, variants, (i + 1) as nat) == told);
        if parent == error && in_file(file, arm.start, arm.end) {
            let row = HandleView {
                error,
                variant: Some(variants[i as int].name@),
                site: span_id_of(file.file_id, arm.start, arm.end),
                function: caller,
            };
            law_rows_are_added(start.host.handles, row);
            assert(first_of_error(known, variants, error, i as int));
            assert forall|k: int| #[trigger] first_of_error(known, variants, error, k) implies k
                == i by {
                if k < i {
                    assert(variants[k].parent == variants[k].parent);
                } else if i < k {
                    assert(error_enum(
                        arm_known(known, variants, i),
                        variants[i as int].parent,
                    ).1 == error);
                }
            }
        } else {
            lemma_arm_variants(known, file, arm, caller, error, (i + 1) as nat);
        }
    } else {
        assert forall|k: int|
            in_file(file, arm.start, arm.end) implies !#[trigger] first_of_error(
            known,
            variants,
            error,
            k,
        ) by {
            if first_of_error(known, variants, error, k) {
                assert(variants[k].parent == variants[k].parent);
            }
        }
    }
}

proof fn lemma_arm(snapshot: Snapshot, file: LocalFile, arm: ArmSite)
    ensures
        ({
            let before = snapshot.host;
            let after = with_arm(snapshot, file, arm).host;
            &&& forall|row: HandleView| #[trigger]
                after.handles.contains(row) <==> before.handles.contains(row) || tells_arm(
                    snapshot,
                    file,
                    arm,
                    row,
                )
            &&& same_rows(before, HostView { handles: before.handles, ..after })
        }),
{
    lemma_context_rows(snapshot, arm.function);
    let (known, context) = error_context(snapshot, arm.function);
    if let Some((caller, error)) = context {
        lemma_arm_variants(known, file, arm, caller, error, 0);
        let before = snapshot.host;
        let after = with_arm(snapshot, file, arm).host;
        assert forall|row: HandleView| #[trigger]
            after.handles.contains(row) <==> before.handles.contains(row) || tells_arm(
                snapshot,
                file,
                arm,
                row,
            ) by {
            if tells_arm(snapshot, file, arm, row) {
                let i = choose|i: int| #[trigger]
                    first_of_error(known, arm.variants@, row.error, i) && row.variant == Some(
                        arm.variants@[i].name@,
                    );
                assert(first_of_error(known, arm.variants@, error, i));
            }
        }
    }
}

proof fn lemma_arms(snapshot: Snapshot, file: LocalFile, sites: Seq<ArmSite>, count: nat)
    requires
        count <= sites.len(),
    ensures
        ({
            let before = snapshot.host;
            let after = with_arms(snapshot, file, sites, count).host;
            &&& forall|row: HandleView| #[trigger]
                after.handles.contains(row) <==> before.handles.contains(row) || exists|i: int|
                    0 <= i < count && #[trigger] tells_arm(
                        with_arms(snapshot, file, sites, i as nat),
                        file,
                        sites[i],
                        row,
                    )
            &&& same_rows(before, HostView { handles: before.handles, ..after })
        }),
    decreases count,
{
    if count > 0 {
        let n = count - 1;
        lemma_arms(snapshot, file, sites, n as nat);
        lemma_arm(with_arms(snapshot, file, sites, n as nat), file, sites[n]);
        let before = snapshot.host;
        let after = with_arms(snapshot, file, sites, count).host;
        assert forall|row: HandleView| #[trigger]
            after.handles.contains(row) <==> before.handles.contains(row) || exists|i: int|
                0 <= i < count && #[trigger] tells_arm(
                    with_arms(snapshot, file, sites, i as nat),
                    file,
                    sites[i],
                    row,
                ) by {
            if exists|i: int|
                0 <= i < count && #[trigger] tells_arm(
                    with_arms(snapshot, file, sites, i as nat),
                    file,
                    sites[i],
                    row,
                ) {
                let i = choose|i: int|
                    0 <= i < count && #[trigger] tells_arm(
                        with_arms(snapshot, file, sites, i as nat),
                        file,
                        sites[i],
                        row,
                    );
                assert(i < n || i == n);
            }
        }
    }
}

/// The snapshot once the place of a binary expression has been told.
pub open spec fn binary_known(known: Snapshot, file: LocalFile, site: BinarySite) -> Snapshot {
    with_site(error_context(known, site.function).0, file, site.start, site.end)
}

/// The comparison has the error of its function on either side, and the row tells
/// of it.
pub open spec fn tells_comparison(
    known: Snapshot,
    file: LocalFile,
    site: BinarySite,
    row: CompareView,
) -> bool {
    &&& error_context(known, site.function).1 == Some((row.function, row.error))
    &&& in_file(file, site.start, site.end)
    &&& row.site == span_id_of(file.file_id, site.start, site.end)
    &&& match (site.operation, site.function) {
        (BinaryUse::Compare { operator, lhs, rhs }, Some(function)) => {
            let start = binary_known(known, file, site);
            let (first, left) = is_error_operand(start, function, lhs, row.error);
            row.operator == operator@ && (left || is_error_operand(
                first,
                function,
                rhs,
                row.error,
            ).1)
        },
        _ => false,
    }
}

/// The assignment writes the error of its function, and the row tells of it.
pub open spec fn tells_write(
    known: Snapshot,
    file: LocalFile,
    site: BinarySite,
    row: WriteView,
) -> bool {
    &&& error_context(known, site.function).1 == Some((row.function, row.error))
    &&& in_file(file, site.start, site.end)
    &&& row.site == span_id_of(file.file_id, site.start, site.end)
    &&& match (site.operation, site.function) {
        (BinaryUse::Assign { lhs }, Some(function)) => is_error_operand(
            binary_known(known, file, site),
            function,
            lhs,
            row.error,
        ).1,
        _ => false,
    }
}

proof fn lemma_binary(snapshot: Snapshot, file: LocalFile, site: BinarySite)
    ensures
        ({
            let before = snapshot.host;
            let after = with_binary(snapshot, file, site).host;
            &&& forall|row: CompareView| #[trigger]
                after.compares.contains(row) <==> before.compares.contains(row)
                    || tells_comparison(snapshot, file, site, row)
            &&& forall|row: WriteView| #[trigger]
                after.writes.contains(row) <==> before.writes.contains(row) || tells_write(
                    snapshot,
                    file,
                    site,
                    row,
                )
            &&& same_rows(
                before,
                HostView { compares: before.compares, writes: before.writes, ..after },
            )
        }),
{
    lemma_context_rows(snapshot, site.function);
    let (known, context) = error_context(snapshot, site.function);
    if let (Some((caller, error)), Some(function)) = (context, site.function) {
        let start = binary_known(snapshot, file, site);
        let span = span_id_of(file.file_id, site.start, site.end);
        match site.operation {
            BinaryUse::Compare { operator, lhs, rhs } => {
                lemma_operand_rows(start, function, lhs, error);
                let first = is_error_operand(start, function, lhs, error).0;
                lemma_operand_rows(first, function, rhs, error);
                let row = CompareView { error, site: span, operator: operator@, function: caller };
                law_rows_are_added(snapshot.host.compares, row);
                assert forall|other: CompareView|
                    tells_comparison(snapshot, file, site, other) implies other == row by {}
            },
            BinaryUse::Assign { lhs } => {
                lemma_operand_rows(start, function, lhs, error);
                let row = WriteView { error, site: span, function: caller };
                law_rows_are_added(snapshot.host.writes, row);
                assert forall|other: WriteView|
                    tells_write(snapshot, file, site, other) implies other == row by {}
            },
            _ => {},
        }
    }
}

proof fn lemma_binaries(snapshot: Snapshot, file: LocalFile, sites: Seq<BinarySite>, count: nat)
    requires
        count <= sites.len(),
    ensures
        ({
            let before = snapshot.host;
            let after = with_binaries(snapshot, file, sites, count).host;
            &&& forall|row: CompareView| #[trigger]
                after.compares.contains(row) <==> before.compares.contains(row) || exists|i: int|
                    0 <= i < count && #[trigger] tells_comparison(
                        with_binaries(snapshot, file, sites, i as nat),
                        file,
                        sites[i],
                        row,
                    )
            &&& forall|row: WriteView| #[trigger]
                after.writes.contains(row) <==> before.writes.contains(row) || exists|i: int|
                    0 <= i < count && #[trigger] tells_write(
                        with_binaries(snapshot, file, sites, i as nat),
                        file,
                        sites[i],
                        row,
                    )
            &&& same_rows(
                before,
                HostView { compares: before.compares, writes: before.writes, ..after },
            )
        }),
    decreases count,
{
    if count > 0 {
        let n = count - 1;
        lemma_binaries(snapshot, file, sites, n as nat);
        lemma_binary(with_binaries(snapshot, file, sites, n as nat), file, sites[n]);
        let before = snapshot.host;
        let after = with_binaries(snapshot, file, sites, count).host;
        assert forall|row: CompareView| #[trigger]
            after.compares.contains(row) <==> before.compares.contains(row) || exists|i: int|
                0 <= i < count && #[trigger] tells_comparison(
                    with_binaries(snapshot, file, sites, i as nat),
                    file,
                    sites[i],
                    row,
                ) by {
            if exists|i: int|
                0 <= i < count && #[trigger] tells_comparison(
                    with_binaries(snapshot, file, sites, i as nat),
                    file,
                    sites[i],
                    row,
                ) {
                let i = choose|i: int|
                    0 <= i < count && #[trigger] tells_comparison(
                        with_binaries(snapshot, file, sites, i as nat),
                        file,
                        sites[i],
                        row,
                    );
                assert(i < n || i == n);
            }
        }
        assert forall|row: WriteView| #[trigger]
            after.writes.contains(row) <==> before.writes.contains(row) || exists|i: int|
                0 <= i < count && #[trigger] tells_write(
                    with_binaries(snapshot, file, sites, i as nat),
                    file,
                    sites[i],
                    row,
                ) by {
            if exists|i: int|
                0 <= i < count && #[trigger] tells_write(
                    with_binaries(snapshot, file, sites, i as nat),
                    file,
                    sites[i],
                    row,
                ) {
                let i = choose|i: int|
                    0 <= i < count && #[trigger] tells_write(
                        with_binaries(snapshot, file, sites, i as nat),
                        file,
                        sites[i],
                        row,
                    );
                assert(i < n || i == n);
            }
        }
    }
}

/// What a snapshot knows once the first `i` expressions of a file that may build an
/// error have been looked at.
pub open spec fn at_build(known: Snapshot, file: LocalFile, flow: ErrorFlow, i: int) -> Snapshot {
    with_builds(known, file, flow.builds@, i as nat)
}

/// What a snapshot knows once the first `i` uses of `?` in a file have been looked
/// at.
pub open spec fn at_try(known: Snapshot, file: LocalFile, flow: ErrorFlow, i: int) -> Snapshot {
    with_tries(
        at_build(known, file, flow, flow.builds@.len() as int),
        file,
        flow.tries@,
        i as nat,
    )
}

/// What a snapshot knows once the first `i` arms of a file have been looked at.
pub open spec fn at_arm(known: Snapshot, file: LocalFile, flow: ErrorFlow, i: int) -> Snapshot {
    with_arms(at_try(known, file, flow, flow.tries@.len() as int), file, flow.arms@, i as nat)
}

/// What a snapshot knows once the first `i` binary expressions of a file have been
/// looked at.
pub open spec fn at_binary(known: Snapshot, file: LocalFile, flow: ErrorFlow, i: int) -> Snapshot {
    with_binaries(
        at_arm(known, file, flow, flow.arms@.len() as int),
        file,
        flow.binaries@,
        i as nat,
    )
}

/// What a file adds of errors: one row for each expression that builds an error of
/// its function, whether by a call, by fields or by a path, for each `?` that passes
/// one on or converts one, for each arm that handles one, and for each comparison
/// and assignment of one; and no other row.
pub proof fn law_error_flow_is_told(known: Snapshot, file: LocalFile, flow: ErrorFlow)
    ensures
        ({
            let before = known.host;
            let after = with_error_flow(known, file, flow).host;
            &&& forall|row: ConstructView| #[trigger]
                after.constructs.contains(row) <==> before.constructs.contains(row) || exists|
                    i: int,
                |
                    0 <= i < flow.builds@.len() && #[trigger] tells_build(
                        at_build(known, file, flow, i),
                        file,
                        flow.builds@[i],
                        row,
                    )
            &&& forall|row: PropagateView| #[trigger]
                after.propagates.contains(row) <==> before.propagates.contains(row) || exists|
                    i: int,
                |
                    0 <= i < flow.tries@.len() && #[trigger] tells_pass(
                        at_try(known, file, flow, i),
                        file,
                        flow.tries@[i],
                        row,
                    )
            &&& forall|row: ConvertView| #[trigger]
                after.converts.contains(row) <==> before.converts.contains(row) || exists|i: int|
                    0 <= i < flow.tries@.len() && #[trigger] tells_conversion(
                        at_try(known, file, flow, i),
                        file,
                        flow.tries@[i],
                        row,
                    )
            &&& forall|row: HandleView| #[trigger]
                after.handles.contains(row) <==> before.handles.contains(row) || exists|i: int|
                    0 <= i < flow.arms@.len() && #[trigger] tells_arm(
                        at_arm(known, file, flow, i),
                        file,
                        flow.arms@[i],
                        row,
                    )
            &&& forall|row: CompareView| #[trigger]
                after.compares.contains(row) <==> before.compares.contains(row) || exists|i: int|
                    0 <= i < flow.binaries@.len() && #[trigger] tells_comparison(
                        at_binary(known, file, flow, i),
                        file,
                        flow.binaries@[i],
                        row,
                    )
            &&& forall|row: WriteView| #[trigger]
                after.writes.contains(row) <==> before.writes.contains(row) || exists|i: int|
                    0 <= i < flow.binaries@.len() && #[trigger] tells_write(
                        at_binary(known, file, flow, i),
                        file,
                        flow.binaries@[i],
                        row,
                    )
            &&& before.call_edges == after.call_edges
            &&& before.fields == after.fields
            &&& before.variants == after.variants
            &&& before.methods == after.methods
            &&& before.trait_methods == after.trait_methods
            &&& before.implements == after.implements
            &&& before.from_impls == after.from_impls
        }),
{
    let built = with_builds(known, file, flow.builds@, flow.builds@.len());
    let tried = with_tries(built, file, flow.tries@, flow.tries@.len());
    let matched = with_arms(tried, file, flow.arms@, flow.arms@.len());
    lemma_builds(known, file, flow.builds@, flow.builds@.len());
    lemma_tries(built, file, flow.tries@, flow.tries@.len());
    lemma_arms(tried, file, flow.arms@, flow.arms@.len());
    lemma_binaries(matched, file, flow.binaries@, flow.binaries@.len());
    assert(forall|i: int, row: ConstructView|
        #![trigger tells_build(with_builds(known, file, flow.builds@, i as nat), file, flow.builds@[i], row)]
        tells_build(with_builds(known, file, flow.builds@, i as nat), file, flow.builds@[i], row) == tells_build(
            at_build(known, file, flow, i),
            file,
            flow.builds@[i],
            row,
        ));
    assert(forall|i: int, row: PropagateView|
        #![trigger tells_pass(with_tries(built, file, flow.tries@, i as nat), file, flow.tries@[i], row)]
        tells_pass(with_tries(built, file, flow.tries@, i as nat), file, flow.tries@[i], row) == tells_pass(
            at_try(known, file, flow, i),
            file,
            flow.tries@[i],
            row,
        ));
    assert(forall|i: int, row: ConvertView|
        #![trigger tells_conversion(with_tries(built, file, flow.tries@, i as nat), file, flow.tries@[i], row)]
        tells_conversion(with_tries(built, file, flow.tries@, i as nat), file, flow.tries@[i], row) == tells_conversion(
            at_try(known, file, flow, i),
            file,
            flow.tries@[i],
            row,
        ));
    assert(forall|i: int, row: HandleView|
        #![trigger tells_arm(with_arms(tried, file, flow.arms@, i as nat), file, flow.arms@[i], row)]
        tells_arm(with_arms(tried, file, flow.arms@, i as nat), file, flow.arms@[i], row) == tells_arm(
            at_arm(known, file, flow, i),
            file,
            flow.arms@[i],
            row,
        ));
    assert(forall|i: int, row: CompareView|
        #![trigger tells_comparison(with_binaries(matched, file, flow.binaries@, i as nat), file, flow.binaries@[i], row)]
        tells_comparison(with_binaries(matched, file, flow.binaries@, i as nat), file, flow.binaries@[i], row) == tells_comparison(
            at_binary(known, file, flow, i),
            file,
            flow.binaries@[i],
            row,
        ));
    assert(forall|i: int, row: WriteView|
        #![trigger tells_write(with_binaries(matched, file, flow.binaries@, i as nat), file, flow.binaries@[i], row)]
        tells_write(with_binaries(matched, file, flow.binaries@, i as nat), file, flow.binaries@[i], row) == tells_write(
            at_binary(known, file, flow, i),
            file,
            flow.binaries@[i],
            row,
        ));
}

/// The definition stands in the sources, and has a name.
pub open spec fn in_sources(facts: ModuleFacts) -> bool {
    facts.kind is Some && facts.name is Some && match facts.loc {
        Some(loc) => key_in_text(loc.rel_path@, loc.text@, loc.start, loc.end) is Some,
        None => false,
    }
}

/// The type is a result with the error: its second argument.
pub open spec fn is_result_of(ty: TyFacts, error: ModuleFacts) -> bool {
    match ty {
        TyFacts::Adt { def, args } => args@.len() > 1 && (args@[1] matches TyFacts::Adt {
            def: second,
            ..
        } && second == error) && match def.canonical {
            Some(path) => exists|front: Seq<char>| path@ == #[trigger] (front + "::Result"@),
            None => def.name matches Some(name) && name@ == "Result"@,
        },
        _ => false,
    }
}

/// The function stands in the sources and gives a result with the error, which
/// stands there too.
pub open spec fn may_fail_with(function: Option<FunctionFacts>, error: ModuleFacts) -> bool {
    match function {
        Some(facts) => in_sources(facts.def) && in_sources(error) && match facts.ret {
            Some(ret) => is_result_of(ret.ty, error),
            None => false,
        },
        None => false,
    }
}

proof fn lemma_result_error(
    snapshot: Snapshot,
    facts: FunctionFacts,
    typed: TypedFacts,
    error: ModuleFacts,
)
    requires
        is_result_of(typed.ty, error),
        in_sources(error),
    ensures
        best_error(snapshot, facts, typed).1 == Some(snapshot_def_id(error)),
{
    if let TyFacts::Adt { def, args } = typed.ty {
        if let Some(path) = def.canonical {
            let front = choose|front: Seq<char>| path@ == #[trigger] (front + "::Result"@);
            assert(path@.subrange(
                path@.len() - "::Result"@.len(),
                path@.len() as int,
            ) =~= "::Result"@);
        }
        assert(crate::ra::snapshot_fns::is_result(def));
        assert(crate::ra::snapshot_fns::behind_refs(typed.ty) == typed.ty);
    }
}

/// A function that gives a result fails with the result's error.
pub proof fn law_functions_fail_with_their_result(
    known: Snapshot,
    function: Option<FunctionFacts>,
    error: ModuleFacts,
)
    requires
        may_fail_with(function, error),
    ensures
        error_context(known, function).1 == Some(
            (snapshot_def_id((function->0).def), snapshot_def_id(error)),
        ),
{
    let facts = function->0;
    let told = registered(known, facts.def, false).0;
    lemma_result_error(told, facts, facts.ret->0, error);
}

pub proof fn lemma_call_rows(snapshot: Snapshot, file: LocalFile, call: SnapCall)
    ensures
        rows_kept(snapshot.host, with_call(snapshot, file, call).host),
        same_flow(snapshot.host, with_call(snapshot, file, call).host),
{
    let (known, caller) = with_caller(snapshot, file, call.caller, call.start, call.end);
    assert(same_rows(snapshot.host, known.host));
    if let Some(caller) = caller {
        let (told, target) = call_target(known, call);
        assert(same_rows(known.host, told.host));
        law_rows_are_added(
            told.host.call_edges,
            CallEdgeView {
                caller,
                callee: target.0,
                site: span_id_of(file.file_id, call.start, call.end),
                dispatch: target.1,
            },
        );
    }
}

pub proof fn lemma_method_call_rows(snapshot: Snapshot, file: LocalFile, call: SnapMethodCall)
    ensures
        rows_kept(snapshot.host, with_method_call(snapshot, file, call).host),
        same_flow(snapshot.host, with_method_call(snapshot, file, call).host),
{
    let (known, caller) = with_caller(snapshot, file, call.caller, call.start, call.end);
    assert(same_rows(snapshot.host, known.host));
    if let Some(caller) = caller {
        let (told, target) = method_target(known, call);
        assert(same_rows(known.host, told.host));
        law_rows_are_added(
            told.host.call_edges,
            CallEdgeView {
                caller,
                callee: target.0,
                site: span_id_of(file.file_id, call.start, call.end),
                dispatch: target.1,
            },
        );
    }
}

pub proof fn lemma_calls_rows(snapshot: Snapshot, file: LocalFile, calls: Seq<SnapCall>, count: nat)
    ensures
        rows_kept(snapshot.host, with_calls(snapshot, file, calls, count).host),
        same_flow(snapshot.host, with_calls(snapshot, file, calls, count).host),
    decreases count,
{
    if count > 0 {
        lemma_calls_rows(snapshot, file, calls, (count - 1) as nat);
        lemma_call_rows(
            with_calls(snapshot, file, calls, (count - 1) as nat),
            file,
            calls[count - 1],
        );
    }
}

pub proof fn lemma_method_calls_rows(
    snapshot: Snapshot,
    file: LocalFile,
    calls: Seq<SnapMethodCall>,
    count: nat,
)
    ensures
        rows_kept(snapshot.host, with_method_calls(snapshot, file, calls, count).host),
        same_flow(snapshot.host, with_method_calls(snapshot, file, calls, count).host),
    decreases count,
{
    if count > 0 {
        lemma_method_calls_rows(snapshot, file, calls, (count - 1) as nat);
        lemma_method_call_rows(
            with_method_calls(snapshot, file, calls, (count - 1) as nat),
            file,
            calls[count - 1],
        );
    }
}

pub proof fn lemma_nodes_rows(
    snapshot: Snapshot,
    file: LocalFile,
    tree: Seq<SyntaxView>,
    count: nat,
)
    ensures
        same_rows(snapshot.host, with_kept_nodes(snapshot, file, tree, count).host),
    decreases count,
{
    if count > 0 {
        lemma_nodes_rows(snapshot, file, tree, (count - 1) as nat);
    }
}

/// What is known of a file before its error flow is looked at.
pub open spec fn before_flow(known: Snapshot, facts: FileFacts) -> Snapshot {
    let tree = parsed_tree(facts.file.text@, facts.file.file_id.read_in());
    with_method_calls(
        with_calls(
            with_kept_nodes(known, facts.file, tree, tree.len()),
            facts.file,
            facts.calls@,
            facts.calls@.len(),
        ),
        facts.file,
        facts.method_calls@,
        facts.method_calls@.len(),
    )
}

pub proof fn lemma_before_flow_rows(known: Snapshot, facts: FileFacts)
    ensures
        rows_kept(known.host, before_flow(known, facts).host),
        with_file(known, facts) == with_error_flow(
            before_flow(known, facts),
            facts.file,
            facts.flow,
        ),
{
    let tree = parsed_tree(facts.file.text@, facts.file.file_id.read_in());
    let noded = with_kept_nodes(known, facts.file, tree, tree.len());
    lemma_nodes_rows(known, facts.file, tree, tree.len());
    lemma_calls_rows(noded, facts.file, facts.calls@, facts.calls@.len());
    lemma_method_calls_rows(
        with_calls(noded, facts.file, facts.calls@, facts.calls@.len()),
        facts.file,
        facts.method_calls@,
        facts.method_calls@.len(),
    );
}

/// Telling a file loses nothing that was told before.
pub proof fn law_files_keep_rows(known: Snapshot, files: Seq<FileFacts>, n: nat, count: nat)
    requires
        n <= count,
    ensures
        rows_kept(with_files(known, files, n).host, with_files(known, files, count).host),
    decreases count,
{
    if n < count {
        law_files_keep_rows(known, files, n, (count - 1) as nat);
        let told = with_files(known, files, (count - 1) as nat);
        let facts = files[count - 1];
        lemma_before_flow_rows(told, facts);
        law_error_flow_is_told(before_flow(told, facts), facts.file, facts.flow);
    }
}

/// What a snapshot knows before file `n`'s error flow is looked at.
spec fn flow_start(
    stamp: Seq<char>,
    crates: Seq<ModuleTree>,
    files: Seq<FileFacts>,
    n: int,
) -> Snapshot {
    before_flow(
        with_files(with_crates(stamped(stamp), crates, crates.len()), files, n as nat),
        files[n],
    )
}

proof fn lemma_flow_reaches(
    stamp: Seq<char>,
    crates: Seq<ModuleTree>,
    files: Seq<FileFacts>,
    n: int,
)
    requires
        0 <= n < files.len(),
    ensures
        rows_kept(
            with_error_flow(flow_start(stamp, crates, files, n), files[n].file, files[n].flow).host,
            snapshot_of(stamp, crates, files),
        ),
{
    let known = with_crates(stamped(stamp), crates, crates.len());
    lemma_before_flow_rows(with_files(known, files, n as nat), files[n]);
    law_files_keep_rows(known, files, (n + 1) as nat, files.len());
}

/// Every expression that builds an error of its function has its row in the index
/// of the workspace: a call of the variant, its fields given, or its path where it
/// has no fields.
pub proof fn law_built_errors_are_indexed(
    stamp: Seq<char>,
    crates: Seq<ModuleTree>,
    files: Seq<FileFacts>,
    n: int,
    i: int,
    error: ModuleFacts,
)
    requires
        0 <= n < files.len(),
        0 <= i < files[n].flow.builds@.len(),
        ({
            let site = files[n].flow.builds@[i];
            &&& may_fail_with(site.function, error)
            &&& in_file(files[n].file, site.start, site.end)
            &&& site.form == BuildForm::Call || site.form == BuildForm::Record || site.form == (
            BuildForm::Path { unit: true })
            &&& site.variant matches Some(variant) && in_sources(variant.parent)
                && snapshot_def_id(variant.parent) == snapshot_def_id(error)
        }),
    ensures
        ({
            let site = files[n].flow.builds@[i];
            snapshot_of(stamp, crates, files).constructs.contains(
                ConstructView {
                    error: snapshot_def_id(error),
                    variant: (site.variant->0).name@,
                    site: span_id_of(files[n].file.file_id, site.start, site.end),
                    function: snapshot_def_id((site.function->0).def),
                },
            )
        }),
{
    let file = files[n].file;
    let flow = files[n].flow;
    let site = flow.builds@[i];
    let known = flow_start(stamp, crates, files, n);
    law_error_flow_is_told(known, file, flow);
    lemma_flow_reaches(stamp, crates, files, n);
    let here = at_build(known, file, flow, i);
    law_functions_fail_with_their_result(here, site.function, error);
    let row = ConstructView {
        error: snapshot_def_id(error),
        variant: (site.variant->0).name@,
        site: span_id_of(file.file_id, site.start, site.end),
        function: snapshot_def_id((site.function->0).def),
    };
    assert(tells_build(here, file, site, row));
    assert(with_error_flow(known, file, flow).host.constructs.contains(row));
}

/// Every `?` in a function that gives a result has a row for the error that it
/// passes on, and one more where the error of what it is applied to is another.
pub proof fn law_passed_errors_are_indexed(
    stamp: Seq<char>,
    crates: Seq<ModuleTree>,
    files: Seq<FileFacts>,
    n: int,
    i: int,
    error: ModuleFacts,
    source: ModuleFacts,
)
    requires
        0 <= n < files.len(),
        0 <= i < files[n].flow.tries@.len(),
        ({
            let site = files[n].flow.tries@[i];
            &&& may_fail_with(site.function, error)
            &&& site.question_mark matches Some((start, end)) && in_file(files[n].file, start, end)
        }),
    ensures
        ({
            let site = files[n].flow.tries@[i];
            let (start, end) = site.question_mark->0;
            let span = span_id_of(files[n].file.file_id, start, end);
            let caller = snapshot_def_id((site.function->0).def);
            let index = snapshot_of(stamp, crates, files);
            &&& index.propagates.contains(
                PropagateView { error: snapshot_def_id(error), site: span, function: caller },
            )
            &&& (match site.operand {
                Some(operand) => is_result_of(operand.ty, source) && in_sources(source),
                None => false,
            }) && snapshot_def_id(source) != snapshot_def_id(error) ==> index.converts.contains(
                ConvertView {
                    source: snapshot_def_id(source),
                    target: snapshot_def_id(error),
                    site: span,
                    function: caller,
                },
            )
        }),
{
    let file = files[n].file;
    let flow = files[n].flow;
    let site = flow.tries@[i];
    let known = flow_start(stamp, crates, files, n);
    law_error_flow_is_told(known, file, flow);
    lemma_flow_reaches(stamp, crates, files, n);
    let here = at_try(known, file, flow, i);
    law_functions_fail_with_their_result(here, site.function, error);
    let (start, end) = site.question_mark->0;
    let span = span_id_of(file.file_id, start, end);
    let caller = snapshot_def_id((site.function->0).def);
    let row = PropagateView { error: snapshot_def_id(error), site: span, function: caller };
    assert(tells_pass(here, file, site, row));
    assert(with_error_flow(known, file, flow).host.propagates.contains(row));
    if let Some(operand) = site.operand {
        if is_result_of(operand.ty, source) && in_sources(source) && snapshot_def_id(source)
            != snapshot_def_id(error) {
            lemma_result_error(passed(here, file, site), site.function->0, operand, source);
            let turned = ConvertView {
                source: snapshot_def_id(source),
                target: snapshot_def_id(error),
                site: span,
                function: caller,
            };
            assert(tells_conversion(here, file, site, turned));
            assert(with_error_flow(known, file, flow).host.converts.contains(turned));
        }
    }
}

/// Variant `v` is one of the error, and those before it are of others.
pub open spec fn is_first_variant(variants: Seq<VariantUse>, error: u64, v: int) -> bool {
    &&& 0 <= v < variants.len()
    &&& forall|k: int| 0 <= k <= v ==> in_sources((#[trigger] variants[k]).parent)
    &&& snapshot_def_id(variants[v].parent) == error
    &&& forall|k: int|
        0 <= k < v ==> snapshot_def_id((#[trigger] variants[k]).parent) != error
}

/// The enum of a variant in the sources is told by its own id.
proof fn lemma_first_in_sources(
    known: Snapshot,
    variants: Seq<VariantUse>,
    error: u64,
    v: int,
)
    requires
        is_first_variant(variants, error, v),
    ensures
        first_of_error(known, variants, error, v),
{
    assert forall|k: int| 0 <= k <= v implies error_enum(
        arm_known(known, variants, k as nat),
        (#[trigger] variants[k]).parent,
    ).1 == snapshot_def_id(variants[k].parent) by {
        assert(in_sources(variants[k].parent));
    }
}

proof fn lemma_arm_told(
    here: Snapshot,
    file: LocalFile,
    arm: ArmSite,
    error: ModuleFacts,
    v: int,
)
    requires
        may_fail_with(arm.function, error),
        in_file(file, arm.start, arm.end),
        is_first_variant(arm.variants@, snapshot_def_id(error), v),
    ensures
        tells_arm(
            here,
            file,
            arm,
            HandleView {
                error: snapshot_def_id(error),
                variant: Some(arm.variants@[v].name@),
                site: span_id_of(file.file_id, arm.start, arm.end),
                function: snapshot_def_id((arm.function->0).def),
            },
        ),
{
    law_functions_fail_with_their_result(here, arm.function, error);
    let known = error_context(here, arm.function).0;
    lemma_first_in_sources(known, arm.variants@, snapshot_def_id(error), v);
}

proof fn lemma_arm_reaches(
    stamp: Seq<char>,
    crates: Seq<ModuleTree>,
    files: Seq<FileFacts>,
    n: int,
    i: int,
    row: HandleView,
)
    requires
        0 <= n < files.len(),
        0 <= i < files[n].flow.arms@.len(),
        tells_arm(
            at_arm(flow_start(stamp, crates, files, n), files[n].file, files[n].flow, i),
            files[n].file,
            files[n].flow.arms@[i],
            row,
        ),
    ensures
        snapshot_of(stamp, crates, files).handles.contains(row),
{
    let known = flow_start(stamp, crates, files, n);
    law_error_flow_is_told(known, files[n].file, files[n].flow);
    lemma_flow_reaches(stamp, crates, files, n);
    assert(with_error_flow(known, files[n].file, files[n].flow).host.handles.contains(row));
}

/// Every arm that names variants of its function's error has a row for the first of
/// them.
pub proof fn law_handled_errors_are_indexed(
    stamp: Seq<char>,
    crates: Seq<ModuleTree>,
    files: Seq<FileFacts>,
    n: int,
    i: int,
    error: ModuleFacts,
    v: int,
)
    requires
        0 <= n < files.len(),
        0 <= i < files[n].flow.arms@.len(),
        ({
            let arm = files[n].flow.arms@[i];
            &&& may_fail_with(arm.function, error)
            &&& in_file(files[n].file, arm.start, arm.end)
            &&& is_first_variant(arm.variants@, snapshot_def_id(error), v)
        }),
    ensures
        ({
            let arm = files[n].flow.arms@[i];
            snapshot_of(stamp, crates, files).handles.contains(
                HandleView {
                    error: snapshot_def_id(error),
                    variant: Some(arm.variants@[v].name@),
                    site: span_id_of(files[n].file.file_id, arm.start, arm.end),
                    function: snapshot_def_id((arm.function->0).def),
                },
            )
        }),
{
    let file = files[n].file;
    let flow = files[n].flow;
    let arm = flow.arms@[i];
    let known = flow_start(stamp, crates, files, n);
    let row = HandleView {
        error: snapshot_def_id(error),
        variant: Some(arm.variants@[v].name@),
        site: span_id_of(file.file_id, arm.start, arm.end),
        function: snapshot_def_id((arm.function->0).def),
    };
    lemma_arm_told(at_arm(known, file, flow, i), file, arm, error, v);
    lemma_arm_reaches(stamp, crates, files, n, i, row);
}

/// The operand is a result with the error.
pub open spec fn is_operand_of(operand: Option<OperandType>, error: ModuleFacts) -> bool {
    match operand {
        Some(operand) => is_result_of(operand.original.typed.ty, error),
        None => false,
    }
}

proof fn lemma_operand_of(
    snapshot: Snapshot,
    function: FunctionFacts,
    operand: Option<OperandType>,
    error: ModuleFacts,
)
    requires
        is_operand_of(operand, error),
        in_sources(error),
    ensures
        is_error_operand(snapshot, function, operand, snapshot_def_id(error)).1,
{
    lemma_result_error(snapshot, function, (operand->0).original.typed, error);
}

/// Every comparison with a result of its function's error on either side, and every
/// assignment to one, has its row.
pub proof fn law_compared_and_written_errors_are_indexed(
    stamp: Seq<char>,
    crates: Seq<ModuleTree>,
    files: Seq<FileFacts>,
    n: int,
    i: int,
    error: ModuleFacts,
)
    requires
        0 <= n < files.len(),
        0 <= i < files[n].flow.binaries@.len(),
        may_fail_with(files[n].flow.binaries@[i].function, error),
        in_file(
            files[n].file,
            files[n].flow.binaries@[i].start,
            files[n].flow.binaries@[i].end,
        ),
    ensures
        ({
            let site = files[n].flow.binaries@[i];
            let span = span_id_of(files[n].file.file_id, site.start, site.end);
            let caller = snapshot_def_id((site.function->0).def);
            let index = snapshot_of(stamp, crates, files);
            match site.operation {
                BinaryUse::Compare { operator, lhs, rhs } => is_operand_of(lhs, error)
                    || is_operand_of(rhs, error) ==> index.compares.contains(
                    CompareView {
                        error: snapshot_def_id(error),
                        site: span,
                        operator: operator@,
                        function: caller,
                    },
                ),
                BinaryUse::Assign { lhs } => is_operand_of(lhs, error) ==> index.writes.contains(
                    WriteView { error: snapshot_def_id(error), site: span, function: caller },
                ),
                _ => true,
            }
        }),
{
    let file = files[n].file;
    let flow = files[n].flow;
    let site = flow.binaries@[i];
    let known = flow_start(stamp, crates, files, n);
    law_error_flow_is_told(known, file, flow);
    lemma_flow_reaches(stamp, crates, files, n);
    let here = at_binary(known, file, flow, i);
    law_functions_fail_with_their_result(here, site.function, error);
    let function = site.function->0;
    let span = span_id_of(file.file_id, site.start, site.end);
    let caller = snapshot_def_id(function.def);
    let start = binary_known(here, file, site);
    let after = with_error_flow(known, file, flow).host;
    match site.operation {
        BinaryUse::Compare { operator, lhs, rhs } => {
            let first = is_error_operand(start, function, lhs, snapshot_def_id(error)).0;
            if is_operand_of(lhs, error) {
                lemma_operand_of(start, function, lhs, error);
            }
            if is_operand_of(rhs, error) {
                lemma_operand_of(first, function, rhs, error);
            }
            if is_operand_of(lhs, error) || is_operand_of(rhs, error) {
                let row = CompareView {
                    error: snapshot_def_id(error),
                    site: span,
                    operator: operator@,
                    function: caller,
                };
                assert(tells_comparison(here, file, site, row));
                assert(after.compares.contains(row));
            }
        },
        BinaryUse::Assign { lhs } => {
            if is_operand_of(lhs, error) {
                lemma_operand_of(start, function, lhs, error);
                let row = WriteView {
                    error: snapshot_def_id(error),
                    site: span,
                    function: caller,
                };
                assert(tells_write(here, file, site, row));
                assert(after.writes.contains(row));
            }
        },
        _ => {},
    }
}

} // verus!
