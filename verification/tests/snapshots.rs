//! Snapshots and core facts built from what a database says.

use raql::host::DefId;
use raql::ra::core_build::{CoreDefFacts, CoreFactsBuilder, CoreHostBuildSpec, LoweredTy};
use raql::ra::core_items::{
    CoreAdt, CoreBody, CoreCall, CoreCallFacts, CoreField, CoreFn, CoreImpl, CoreTarget,
    CoreVariant,
};
use raql::ra::file_id::{EditionedFileId, SourceEdition};
use raql::ra::host::DeterministicRaHost;
use raql::ra::kinds::{DefKind, DispatchKind, Mutability, NodeKind};
use raql::ra::lookup_store::LocalFile;
use raql::ra::snapshot::{build_host_snapshot, FileFacts};
use raql::ra::snapshot_flow::{
    ArmSite, BinarySite, BinaryUse, BuildForm, BuildSite, ErrorFlow, LayeredType, OperandType, SnapCall,
    SnapMethodCall, SnapTarget, TrySite, VariantUse,
};
use raql::ra::snapshot_fns::{FunctionFacts, TypedFacts};
use raql::ra::snapshot_items::{
    AdtFacts, AssocFacts, FieldFacts, ImplFacts, ModuleItem, ModuleTree, TraitFacts, VariantFacts,
};
use raql::ra::snapshot_types::{ModuleFacts, SourceLoc, TyFacts};
use raql::ra::source::span_of_place;

const TEXT: &str = "enum Oops { Bad }
struct Shape { side: u8 }
trait Draw { fn draw(&self); }
impl Draw for Shape { fn draw(&self) {} }
fn work() -> Result<u8, Oops> { fetch()?; Err(Oops::Bad) }
fn fetch() -> Result<u8, Other> { Ok(1) }
";

fn file_id() -> EditionedFileId {
    EditionedFileId::new(3, SourceEdition::Edition2021)
}

fn file() -> LocalFile {
    LocalFile {
        file_id: file_id(),
        rel_path: "src/lib.rs".to_string(),
        text: TEXT.to_string(),
    }
}

fn range(part: &str) -> (u32, u32) {
    let start = TEXT.find(part).expect("the part");
    (start as u32, (start + part.len()) as u32)
}

fn loc(part: &str) -> Option<SourceLoc> {
    let (start, end) = range(part);
    Some(SourceLoc {
        file_id: file_id(),
        rel_path: "src/lib.rs".to_string(),
        text: TEXT.to_string(),
        start,
        end,
    })
}

fn facts(name: &str, kind: DefKind, part: &str) -> ModuleFacts {
    ModuleFacts {
        kind: Some(kind),
        loc: loc(part),
        name: Some(name.to_string()),
        canonical: Some(format!("demo::{name}")),
        is_public: false,
        in_test: false,
    }
}

fn def(host: &DeterministicRaHost, name: &str, kind: &str, part: &str) -> DefId {
    let (start, end) = range(part);
    let token = format!("def:{kind}:crate::{name}:src/lib.rs:{start}..{end}");
    host.intern_def_from_token(&token)
}

fn oops() -> ModuleFacts {
    facts("Oops", DefKind::Enum, "enum Oops { Bad }")
}

fn shape() -> ModuleFacts {
    facts("Shape", DefKind::Struct, "struct Shape { side: u8 }")
}

fn result_of(error: TyFacts, error_name: &str) -> TypedFacts {
    let result = ModuleFacts {
        kind: Some(DefKind::Enum),
        loc: None,
        name: Some("Result".to_string()),
        canonical: Some("core::result::Result".to_string()),
        is_public: true,
        in_test: false,
    };
    TypedFacts {
        ty: TyFacts::Adt { def: result, args: vec![TyFacts::Builtin("u8".to_string()), error] },
        arg_names: vec!["u8".to_string(), error_name.to_string()],
    }
}

fn function(name: &str, part: &str, ret: TypedFacts, ret_text: &str) -> FunctionFacts {
    FunctionFacts {
        def: facts(name, DefKind::Fn, part),
        ret: Some(ret),
        async_ret: None,
        ret_text: Some(ret_text.to_string()),
        signature_text: Some(format!("-> {ret_text}")),
        aliases: Vec::new(),
    }
}

const WORK: &str = "fn work() -> Result<u8, Oops> { fetch()?; Err(Oops::Bad) }";
const FETCH: &str = "fn fetch() -> Result<u8, Other> { Ok(1) }";

fn work() -> FunctionFacts {
    let error = TyFacts::Adt { def: oops(), args: Vec::new() };
    function("work", WORK, result_of(error, "Oops"), "Result<u8, Oops>")
}

fn other() -> TypedFacts {
    result_of(TyFacts::Param("Other".to_string()), "Other")
}

fn fetch() -> FunctionFacts {
    function("fetch", FETCH, other(), "Result<u8, Other>")
}

fn draw() -> FunctionFacts {
    FunctionFacts {
        def: facts("draw", DefKind::Fn, "fn draw(&self) {}"),
        ret: None,
        async_ret: None,
        ret_text: None,
        signature_text: None,
        aliases: Vec::new(),
    }
}

fn tree() -> ModuleTree {
    let bad = facts("Oops::Bad", DefKind::Variant, "Bad");
    ModuleTree {
        def: facts("demo", DefKind::Mod, TEXT),
        is_test: false,
        items: vec![
            ModuleItem::Adt {
                def: oops(),
                parts: AdtFacts::Variants(vec![VariantFacts {
                    def: bad,
                    name: "Bad".to_string(),
                    fields: vec!["0".to_string()],
                }]),
            },
            ModuleItem::Adt {
                def: shape(),
                parts: AdtFacts::Fields(vec![FieldFacts {
                    name: "side".to_string(),
                    loc: loc("side: u8"),
                    is_public: true,
                }]),
            },
            ModuleItem::Trait {
                def: facts("Draw", DefKind::Trait, "trait Draw { fn draw(&self); }"),
                items: vec![AssocFacts::Function(FunctionFacts {
                    def: facts("Draw::draw", DefKind::Fn, "fn draw(&self);"),
                    ..draw()
                })],
            },
            ModuleItem::Function(work()),
            ModuleItem::Function(fetch()),
        ],
        impls: vec![ImplFacts {
            loc: loc("impl Draw for Shape { fn draw(&self) {} }"),
            self_ty: Some(TyFacts::Adt { def: shape(), args: Vec::new() }),
            trait_ref: Some(TraitFacts {
                def: facts("Draw", DefKind::Trait, "trait Draw { fn draw(&self); }"),
                name: "Draw".to_string(),
                argument: None,
            }),
            items: vec![AssocFacts::Function(draw())],
        }],
    }
}

fn operand(ty: TypedFacts) -> OperandType {
    OperandType { original: LayeredType { typed: ty, inner: None }, adjusted: None }
}

fn file_facts() -> FileFacts {
    let (start, end) = range("fetch()");
    let (mark, mark_end) = range("?");
    let (bad, bad_end) = range("Oops::Bad");
    let error = || TypedFacts {
        ty: TyFacts::Adt { def: oops(), args: Vec::new() },
        arg_names: Vec::new(),
    };
    let variant = || VariantUse { parent: oops(), name: "Bad".to_string() };
    FileFacts {
        file: file(),
        calls: vec![SnapCall {
            caller: Some(work().def),
            start,
            end,
            callee_start: start,
            callee_end: end - 2,
            target: SnapTarget::Function(fetch().def),
        }],
        method_calls: vec![SnapMethodCall {
            caller: Some(work().def),
            start,
            end,
            method: None,
            class: None,
            name: Some("unknown".to_string()),
        }],
        flow: ErrorFlow {
            builds: vec![
                BuildSite {
                    function: Some(work()),
                    variant: Some(variant()),
                    form: BuildForm::Path { unit: true },
                    start: bad,
                    end: bad_end,
                },
                BuildSite {
                    function: Some(work()),
                    variant: Some(variant()),
                    form: BuildForm::Path { unit: false },
                    start,
                    end,
                },
            ],
            tries: vec![TrySite {
                function: Some(work()),
                question_mark: Some((mark, mark_end)),
                operand: Some(other()),
            }],
            arms: vec![ArmSite {
                function: Some(work()),
                start: bad,
                end: bad_end,
                variants: vec![variant()],
            }],
            binaries: vec![
                BinarySite {
                    function: Some(work()),
                    start: bad,
                    end: bad_end,
                    operation: BinaryUse::Compare {
                        operator: "==".to_string(),
                        lhs: Some(operand(error())),
                        rhs: None,
                    },
                },
                BinarySite {
                    function: Some(work()),
                    start: bad,
                    end: bad_end,
                    operation: BinaryUse::Assign { lhs: Some(operand(error())) },
                },
                BinarySite {
                    function: Some(work()),
                    start: bad,
                    end: bad_end,
                    operation: BinaryUse::Other,
                },
            ],
        },
    }
}

fn snapshot() -> DeterministicRaHost {
    build_host_snapshot("/w", &vec![], "id", &vec![tree()], &vec![file_facts()])
}

#[test]
fn snapshots_hold_the_structure_of_types() {
    let host = snapshot();
    let shape = def(&host, "Shape", "Struct", "struct Shape { side: u8 }");
    let oops = def(&host, "Oops", "Enum", "enum Oops { Bad }");
    let owners = |owner: DefId| {
        let fields = host.fields();
        (0..fields.len())
            .filter(|i| fields.row(*i).owner == owner)
            .map(|i| fields.row(i).name.clone())
            .collect::<Vec<_>>()
    };
    assert_eq!(owners(shape), vec!["side".to_string()]);
    assert_eq!(host.variants().len(), 1);
    assert_eq!(host.variants().row(0).owner, oops);
    assert_eq!(host.variants().row(0).name, "Bad");
    assert_eq!(owners(host.variants().row(0).variant), vec!["0".to_string()]);
    assert_eq!(host.trait_methods().len(), 1);
    assert_eq!(host.methods().len(), 1);
    assert_eq!(host.methods().row(0).owner, shape);
    assert_eq!(host.implements().len(), 1);
    assert_eq!(host.implements().row(0).owner, shape);
    assert_eq!(host.from_impls().len(), 0);
}

#[test]
fn snapshots_tell_error_types() {
    let host = snapshot();
    let work = def(&host, "work", "Fn", WORK);
    let oops = def(&host, "Oops", "Enum", "enum Oops { Bad }");
    assert_eq!(host.fn_error_type(work), Some(Some(oops)));
    let ret = host.fn_return_type(work).flatten().expect("a return type");
    assert_eq!(host.ty_args(ret).len(), 2);
    let arg = host.ty_arg(ret, 0).expect("the first argument");
    assert_eq!(host.ty_prim(arg), Some("u8"));
    assert_eq!(host.ty_app(host.ty_arg(ret, 1).expect("the second argument")), Some(oops));
}

#[test]
fn snapshots_follow_errors_through_functions() {
    let host = snapshot();
    let work = def(&host, "work", "Fn", WORK);
    let fetch = def(&host, "fetch", "Fn", FETCH);
    let oops = def(&host, "Oops", "Enum", "enum Oops { Bad }");
    let source = host.fn_error_type(fetch).flatten().expect("an error type");
    let edges = host.call_edges();
    let direct = (0..edges.len()).map(|i| edges.row(i)).find(|edge| edge.callee == fetch);
    let direct = direct.expect("work calls fetch");
    assert_eq!((direct.caller, direct.dispatch), (work, DispatchKind::Direct));
    let unresolved = (0..edges.len()).map(|i| edges.row(i)).find(|edge| edge.callee != fetch);
    assert_eq!(unresolved.map(|edge| edge.dispatch), Some(DispatchKind::Dyn));

    assert_eq!(host.constructs().len(), 1);
    assert_eq!(host.constructs().row(0).error, oops);
    assert_eq!(host.constructs().row(0).variant, "Bad");
    assert_eq!(host.constructs().row(0).function, work);
    assert_eq!(host.propagates().len(), 1);
    assert_eq!(host.propagates().row(0).error, oops);
    assert_eq!(host.converts().len(), 1);
    assert_eq!(host.converts().row(0).source, source);
    assert_eq!(host.converts().row(0).target, oops);
    assert_eq!(host.handles().len(), 1);
    assert_eq!(host.handles().row(0).variant, Some("Bad".to_string()));
    assert_eq!(host.compares().len(), 1);
    assert_eq!(host.compares().row(0).operator, "==");
    assert_eq!(host.writes().len(), 1);
}

fn core_facts(name: &str, kind: DefKind, part: &str) -> CoreDefFacts {
    CoreDefFacts {
        kind: Some(kind),
        name: Some(name.to_string()),
        canonical: Some(format!("demo::{name}")),
        crate_name: Some("demo".to_string()),
        loc: loc(part),
        is_public: true,
        in_test: false,
        function: None,
    }
}

fn builder(adt_structure: bool) -> CoreFactsBuilder {
    CoreFactsBuilder::new(CoreHostBuildSpec {
        def_spans: true,
        def_publicity: true,
        def_test_flags: true,
        adt_structure,
    })
}

#[test]
fn core_facts_hold_fields_where_asked() {
    let struct_part = "struct Shape { side: u8 }";
    let fields = || {
        CoreAdt::Record(vec![CoreField {
            name: Some("side".to_string()),
            ty: LoweredTy::Reference {
                mutability: Mutability::Mut,
                inner: Box::new(LoweredTy::Builtin("u8".to_string())),
            },
            source: None,
        }])
    };
    let mut asked = builder(true);
    let owner = asked.register_adt_def(&core_facts("Shape", DefKind::Struct, struct_part));
    asked.process_adt(&fields(), owner, &vec![]);
    assert_eq!(asked.host.fields().len(), 1);
    assert_eq!(asked.host.fields().row(0).owner, owner);
    let ty = asked.host.fields().row(0).ty;
    let (mutability, inner) = asked.host.ty_ref(ty).expect("a reference");
    assert_eq!(mutability, Mutability::Mut);
    assert_eq!(asked.host.ty_prim(inner), Some("u8"));

    let mut unasked = builder(false);
    unasked.process_adt(&fields(), owner, &vec![]);
    assert_eq!(unasked.host.fields().len(), 0);

    let mut tuple = builder(true);
    let field = CoreField { name: None, ty: LoweredTy::Unknown, source: None };
    tuple.process_adt(&CoreAdt::Tuple(vec![field]), owner, &vec![]);
    assert_eq!(tuple.host.fields().row(0).name, "0");

    let mut variants = builder(true);
    let variant = CoreVariant {
        def: core_facts("Oops::Bad", DefKind::Variant, "Bad"),
        name: "Bad".to_string(),
    };
    variants.process_adt(&CoreAdt::Variants(vec![variant]), owner, &vec![]);
    assert_eq!(variants.host.variants().len(), 1);
}

#[test]
fn core_facts_relate_impls_to_their_types() {
    let mut builder = builder(true);
    let method = CoreFn {
        def: core_facts("draw", DefKind::Fn, "fn draw(&self) {}"),
        ret: LoweredTy::Tuple(vec![]),
        source: None,
    };
    builder.extract_impl(
        &CoreImpl {
            loc: loc("impl Draw for Shape { fn draw(&self) {} }"),
            self_adt: Some(core_facts("Shape", DefKind::Struct, "struct Shape { side: u8 }")),
            trait_def: Some(core_facts("Draw", DefKind::Trait, "trait Draw { fn draw(&self); }")),
            argument: None,
            methods: vec![method],
        },
        &vec![],
    );
    assert_eq!(builder.host.methods().len(), 1);
    assert_eq!(builder.host.implements().len(), 1);
    let owner = builder.host.methods().row(0).owner;
    assert_eq!(builder.host.implements().row(0).owner, owner);
    assert_eq!(builder.core_index.def_name(owner), Some("Shape"));
}

#[test]
fn core_facts_draw_call_edges() {
    let mut builder = builder(true);
    let (start, end) = range("fetch()");
    let call = |call: CoreCallFacts| CoreCall { start, end, call };
    builder.extract_call_edges(&vec![CoreBody {
        def: core_facts("work", DefKind::Fn, WORK),
        file: Some(file()),
        calls: vec![
            call(CoreCallFacts::Expression(Some(CoreTarget::Function(core_facts(
                "fetch",
                DefKind::Fn,
                FETCH,
            ))))),
            call(CoreCallFacts::Method {
                function: Some(core_facts("draw", DefKind::Fn, "fn draw(&self) {}")),
                on_trait_object: false,
                of_trait: true,
            }),
            call(CoreCallFacts::Expression(None)),
        ],
    }]);
    let edges = builder.host.call_edges();
    assert_eq!(edges.len(), 2);
    let dispatches = [edges.row(0).dispatch, edges.row(1).dispatch];
    assert!(dispatches.contains(&DispatchKind::Direct));
    assert!(dispatches.contains(&DispatchKind::ThroughTrait));
    assert_eq!(edges.row(0).caller, edges.row(1).caller);
}

#[test]
fn files_are_read_in_their_edition() {
    let text = "fn f() { match gen { gen => {} } }";
    let start = text.find("gen =>").expect("the arm") as u32;
    let arm_in = |edition: SourceEdition| {
        let file_id = EditionedFileId::new(3, edition);
        let file = LocalFile {
            file_id,
            rel_path: "src/lib.rs".to_string(),
            text: text.to_string(),
        };
        let facts = FileFacts {
            file,
            calls: Vec::new(),
            method_calls: Vec::new(),
            flow: ErrorFlow {
                builds: Vec::new(),
                tries: Vec::new(),
                arms: Vec::new(),
                binaries: Vec::new(),
            },
        };
        let host = build_host_snapshot("/w", &vec![], "id", &vec![], &vec![facts]);
        let span = span_of_place(file_id, start, start + 9);
        host.node_at(span).and_then(|node| host.node_kind(node))
    };
    assert_eq!(arm_in(SourceEdition::Edition2015), Some(NodeKind::Arm));
    assert_eq!(arm_in(SourceEdition::Edition2021), Some(NodeKind::Arm));
    assert_ne!(arm_in(SourceEdition::Edition2024), Some(NodeKind::Arm));
}
