//! The in-memory host runtime.

use raql::host::{
    deterministic_stable_id, CallId, DefId, HostRuntime, ImplId, MockHostRuntime, NodeId, RefId,
    RuntimeScalarOptions, ScalarInputKey, SpanCoord, SpanId, SpanKey, StableHandle, TypeRefId,
    WorldStamp,
};
use raql::ir::{ScalarValue, StableId};

#[test]
fn deterministic_ids_match_across_instances() {
    let a = MockHostRuntime::new();
    let b = MockHostRuntime::new();

    let id_a = a.stable_id("catalog", "users").expect("infallible stable id");
    let id_b = b.stable_id("catalog", "users").expect("infallible stable id");

    assert_eq!(id_a, id_b);
}

#[test]
fn explicit_stable_id_override_wins() {
    let runtime = MockHostRuntime::new().with_stable_id(
        "catalog",
        "users",
        StableId::new(0xdead_beef_u64),
    );

    let id = runtime.stable_id("catalog", "users").expect("infallible stable id");
    assert_eq!(id, StableId::new(0xdead_beef_u64));
}

#[test]
fn scalar_inputs_are_keyed_by_source_and_name() {
    let runtime = MockHostRuntime::new();
    let source = runtime.stable_id("catalog", "orders").expect("infallible stable id");

    let key = ScalarInputKey::new(source, "limit");
    let runtime = runtime.with_scalar_input(key.clone(), ScalarValue::I64(25));

    assert_eq!(
        runtime.scalar_input(&key).expect("infallible scalar input"),
        Some(ScalarValue::I64(25))
    );
    assert_eq!(
        runtime
            .scalar_input(&ScalarInputKey::new(source, "offset"))
            .expect("infallible scalar input"),
        None
    );
}

#[test]
fn world_stamp_is_exposed_and_overridable() {
    let runtime = MockHostRuntime::new();
    assert_eq!(
        runtime.world_stamp().expect("infallible world stamp"),
        WorldStamp::new("mock-world")
    );

    let runtime =
        runtime.with_world_stamp(WorldStamp::new("cfg:debug,target:x86_64-unknown-linux-gnu"));
    assert_eq!(
        runtime.world_stamp().expect("infallible world stamp").as_str(),
        "cfg:debug,target:x86_64-unknown-linux-gnu"
    );
}

#[test]
fn stable_key_functions_are_typed_and_overridable() {
    let def = DefId::new(StableId::new(0x1));
    let type_ref = TypeRefId::new(StableId::new(0x2));
    let call = CallId::new(StableId::new(0x3));

    let runtime = MockHostRuntime::new();
    assert_eq!(
        runtime.handle(def).expect("infallible handle").as_str(),
        "handle:0x0000000000000001"
    );
    assert_eq!(
        runtime.typeref_id(type_ref).expect("infallible typeref_id").as_str(),
        "typeref_id:0x0000000000000002"
    );

    let runtime = runtime
        .with_handle(def, StableHandle::new("def://users"))
        .with_call_id(call, StableHandle::new("call://main#12"));
    assert_eq!(
        runtime.handle(def).expect("infallible handle"),
        StableHandle::new("def://users")
    );
    assert_eq!(
        runtime.call_id(call).expect("infallible call_id"),
        StableHandle::new("call://main#12")
    );
}

#[test]
fn span_keys_and_runtime_scalar_options_are_configurable() {
    let span = SpanId::new(StableId::new(0x42));
    let a = MockHostRuntime::new();
    let b = MockHostRuntime::new();
    assert_eq!(
        a.span_key(span).expect("infallible span_key"),
        b.span_key(span).expect("infallible span_key")
    );

    let custom = SpanKey::new("src/lib.rs", SpanCoord::new(1, 0), SpanCoord::new(1, 10));
    let options =
        RuntimeScalarOptions::new().with_path_limit(5).with_path_max_depth(16).with_max_iters(512);
    let runtime =
        a.with_span_key(span, custom.clone()).with_runtime_scalar_options(options);

    assert_eq!(runtime.span_key(span).expect("infallible span_key"), custom);
    assert_eq!(
        runtime.runtime_scalar_options().expect("infallible scalar options"),
        options
    );
}

#[test]
fn default_keys_name_their_kind() {
    let runtime = MockHostRuntime::new();
    let id = StableId::new(0xabc);
    assert_eq!(
        runtime.node_id(NodeId::new(id)).expect("node").as_str(),
        "node_id:0x0000000000000abc"
    );
    assert_eq!(
        runtime.call_id(CallId::new(id)).expect("call").as_str(),
        "call_id:0x0000000000000abc"
    );
    assert_eq!(
        runtime.ref_id(RefId::new(id)).expect("ref").as_str(),
        "ref_id:0x0000000000000abc"
    );
    assert_eq!(
        runtime.impl_id(ImplId::new(id)).expect("impl").as_str(),
        "impl_id:0x0000000000000abc"
    );
}

#[test]
fn default_spans_end_behind_their_start() {
    let runtime = MockHostRuntime::new();
    for raw in [0u64, 1, 0x42, 0x8000, 0xffff_ffff_ffff_ffff] {
        let key = runtime.span_key(SpanId::new(StableId::new(raw))).expect("span key");
        let start = (key.start().line(), key.start().column());
        let end = (key.end().line(), key.end().column());
        assert!(start < end, "{key:?}");
    }
    let key = runtime.span_key(SpanId::new(StableId::new(0x42))).expect("span key");
    assert_eq!(key.rel_path(), "mock/0000000000000042.rs");
    assert_eq!((key.start().line(), key.start().column()), (67, 0));
    assert_eq!((key.end().line(), key.end().column()), (67, 1));
}

#[test]
fn names_and_namespaces_make_ids() {
    let users = deterministic_stable_id("catalog", "users");
    assert_eq!(users, deterministic_stable_id("catalog", "users"));
    assert_ne!(users, deterministic_stable_id("catalog", "orders"));
    assert_ne!(users, deterministic_stable_id("catalogu", "sers"));
    // Folding no bytes leaves the offset basis with the two segment marks.
    let mut hash: u64 = 0xcbf29ce484222325;
    for byte in [0xffu64, 0xff] {
        hash ^= byte;
        hash = hash.wrapping_mul(0x0000_0100_0000_01b3);
    }
    assert_eq!(deterministic_stable_id("", "").as_u64(), hash);
}
