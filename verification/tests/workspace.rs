//! Manifests, watched files, world stamps, syncing and capabilities.

use raql::ra::capability::{check_capabilities, supported_capabilities, CapabilitySet};
use raql::ra::file_selection::{
    collect_local_files, selected_source_root_ids, CrateNode, FileCandidate,
};
use raql::ra::gates::{
    control_depth, extern_lookup_gate, extern_relation_gate, lookup_only_enabled,
    lookup_supported, LookupGate,
};
use raql::ra::init_error::{run_snapshot_extraction, Extraction, RaHostInitError};
use raql::ra::loader::{
    declares_workspace_with, manifest_declares_workspace, package_workspace_override,
    true_workspace_root, workspace_override_with, ManifestEntry, ManifestField, RootCandidate,
    WorkspaceRoot,
};
use raql::ra::projection::{
    project_result, project_value, ProjectedValue, RunRelation, RunResult, RunValue,
};
use raql::ra::service::{
    prime_cache_threads, SyncAction, SyncEvent, SyncPhase, SyncState,
};
use raql::ra::snapshot_text::{
    encode_fingerprint_parts, extract_result_error_name_from_text, lines_of, lock_line_path,
    normalize_canonical_path, normalize_cargo_lock_sources, normalize_rel_path,
    rewrite_lock_line, snapshot_path_with_hash, trim, PathFacts,
};
use raql::ra::tracking::{
    auxiliary_build_inputs, build_script_rerun_paths, declared_rerun_if_changed_paths,
    is_relevant_workspace_file, path_requires_reload, reload_sensitive_files_changed,
    tracked_directory_watch_set, workspace_watch_files, PathNames, PathState, RerunPlan,
    WatchedFileState,
};
use raql::ra::tree_walk::{local_file_path, module_def_in_test, module_is_test_scope};
use raql::ra::world::{
    collect_workspace_config_file_hashes, compute_semantic_identity, compute_world_stamp,
    config_file_line, config_line_with_hash, crate_signature, normalize_snapshot_path, skips_dir,
    tool_line, tracks_config, world_inputs, world_stamp_with_hash, ConfigFile, CrateFacts,
    HashInput, WorldFile,
};

fn texts(items: &[&str]) -> Vec<String> {
    items.iter().map(|item| item.to_string()).collect()
}

fn world_file(rel_path: &str, text: &str) -> WorldFile {
    WorldFile { rel_path: rel_path.to_string(), text: text.to_string() }
}

fn path_names(parent: Option<&str>, name: &str) -> PathNames {
    PathNames {
        file_name: Some(name.to_string()),
        parent_name: parent.map(|p| p.to_string()),
        extension: name.rfind('.').filter(|at| *at > 0).map(|at| name[at + 1..].to_string()),
    }
}

#[test]
fn snapshot_extraction_returns_ok_without_panics() {
    assert!(run_snapshot_extraction(Extraction::Finished).is_ok());
}

#[test]
fn snapshot_extraction_maps_salsa_cancelled_to_semantic_build_error() {
    let err = run_snapshot_extraction(Extraction::Cancelled)
        .expect_err("cancelled panic should map to semantic build error");
    assert!(matches!(err, RaHostInitError::SemanticBuild { .. }));
    assert!(err.to_text().contains("cancelled"));
}

#[test]
fn world_stamps_follow_contents_and_configuration() {
    let before = vec![world_file("src/lib.rs", "fn a() {}"), world_file("src/b.rs", "")];
    let same = vec![world_file("src/b.rs", ""), world_file("src/lib.rs", "fn a() {}")];
    let edited = vec![world_file("src/lib.rs", "fn b() {}"), world_file("src/b.rs", "")];
    let stamp = compute_world_stamp("/w", &before, "identity");
    assert_eq!(stamp, compute_world_stamp("/w", &same, "identity"));
    assert_ne!(stamp, compute_world_stamp("/w", &edited, "identity"));
    assert_ne!(stamp, compute_world_stamp("/w", &before, "other identity"));
    assert_eq!(world_stamp_with_hash("/w", 0xabc).as_str(), "ra-workspace:/w:0000000000000abc");
}

#[test]
fn world_inputs_list_sorted_files_and_the_identity() {
    let files = vec![world_file("b", "2"), world_file("a", "1")];
    let inputs = world_inputs(&files, "id");
    let mut shown = Vec::new();
    for input in &inputs {
        match input {
            HashInput::Text(text) => shown.push(text.clone()),
            HashInput::Bytes(bytes) => shown.push(format!("{bytes:?}")),
            HashInput::Mark(mark) => shown.push(format!("#{mark}")),
        }
    }
    let a = shown.iter().position(|s| s == "a").expect("a is fed in");
    let b = shown.iter().position(|s| s == "b").expect("b is fed in");
    assert!(a < b);
    assert!(shown.iter().any(|s| s == "id"));
}

#[test]
fn config_files_are_hashed_by_content() {
    let one = ConfigFile { rel_path: "Cargo.toml".to_string(), bytes: b"a".to_vec() };
    let two = ConfigFile { rel_path: "Cargo.toml".to_string(), bytes: b"b".to_vec() };
    assert_ne!(config_file_line(&one), config_file_line(&two));
    assert!(config_file_line(&one).starts_with("Cargo.toml"));
    let lines = collect_workspace_config_file_hashes(&vec![
        ConfigFile { rel_path: "z/Cargo.toml".to_string(), bytes: b"a".to_vec() },
        one,
    ]);
    assert_eq!(lines.len(), 2);
    assert!(lines[0] <= lines[1]);
    assert_eq!(config_line_with_hash("a", 0x10), "a:0000000000000010");
}

#[test]
fn semantic_identity_lists_every_axis() {
    let krate = CrateFacts {
        display_name: Some("alpha".to_string()),
        version: Some("0.1.0".to_string()),
        edition: "2021".to_string(),
        cfg: "test".to_string(),
        deps: vec![("beta".to_string(), None)],
    };
    let signature = crate_signature(&krate);
    for part in ["alpha", "0.1.0", "2021", "test", "beta"] {
        assert!(signature.contains(part), "{signature}");
    }
    let identity = compute_semantic_identity(
        &vec![krate],
        &vec![("RUSTFLAGS".to_string(), "-Cx".to_string())],
        &vec![tool_line("rustc", "rustc 1")],
        &texts(&["Cargo.toml:00"]),
    );
    for part in ["alpha", "RUSTFLAGS", "-Cx", "rustc 1", "Cargo.toml:00"] {
        assert!(identity.contains(part), "{identity}");
    }
}

#[test]
fn snapshot_paths_are_relative_where_they_can_be() {
    let facts = PathFacts {
        full: "/w/src/lib.rs".to_string(),
        in_workspace: Some("src/lib.rs".to_string()),
        in_cargo_home: None,
        in_rustup_home: None,
        file_name: Some("lib.rs".to_string()),
    };
    assert_eq!(normalize_snapshot_path(&facts, false), "src/lib.rs");
    let outside = PathFacts {
        full: "/elsewhere/lib.rs".to_string(),
        in_workspace: None,
        in_cargo_home: None,
        in_rustup_home: None,
        file_name: Some("lib.rs".to_string()),
    };
    let shown = snapshot_path_with_hash(&outside, true, 0x1f);
    assert!(shown.contains("000000000000001f") && shown.ends_with("lib.rs"), "{shown}");
    assert_eq!(normalize_rel_path("a\\b/c"), "a/b/c");
    assert_eq!(local_file_path(Some("src/a.rs"), "/w/src/a.rs"), "src/a.rs");
    assert_eq!(local_file_path(None, "/x/a.rs"), "/x/a.rs");
    assert!(skips_dir("target") && skips_dir(".git") && !skips_dir("src"));
    assert!(tracks_config("Cargo.toml") && !tracks_config("lib.rs"));
}

#[test]
fn lock_sources_lose_their_machine_paths() {
    let lock = "[[package]]\nname = \"a\"\nsource = \"path+file:///w/a\"\n";
    let lines = lines_of(lock);
    assert_eq!(lines.len(), 3);
    assert_eq!(lock_line_path(&lines[1]), None);
    assert_eq!(lock_line_path(&lines[2]), Some("/w/a".to_string()));
    let kept = normalize_cargo_lock_sources(lock, &vec![None, None, Some("a".to_string())]);
    assert!(kept.contains("[[package]]\nname = \"a\"\n"), "{kept}");
    assert!(!kept.contains("file:///w"), "{kept}");
    assert_eq!(rewrite_lock_line("name = \"a\"", None), "name = \"a\"");
}

#[test]
fn texts_are_trimmed_and_paths_made_canonical() {
    assert_eq!(trim("  a b\t\n"), "a b");
    assert_eq!(trim("\u{00a0}x\u{2003}"), "x");
    let white = [
        0x09u32, 0x0a, 0x0b, 0x0c, 0x0d, 0x20, 0x85, 0xa0, 0x1680, 0x2000, 0x2001, 0x2002, 0x2003,
        0x2004, 0x2005, 0x2006, 0x2007, 0x2008, 0x2009, 0x200a, 0x2028, 0x2029, 0x202f, 0x205f,
        0x3000,
    ];
    for code in 0..=0x0010_ffffu32 {
        if let Some(c) = char::from_u32(code) {
            assert_eq!(c.is_whitespace(), white.contains(&code), "{code:x}");
        }
    }
    assert_eq!(trim("\u{200b}x\u{feff}"), "\u{200b}x\u{feff}");
    assert_eq!(normalize_canonical_path("alpha::beta::c"), "crate::beta::c");
    assert_eq!(normalize_canonical_path("crate::beta"), "crate::beta");
    assert_eq!(normalize_canonical_path("beta"), "crate::beta");
    assert_eq!(
        extract_result_error_name_from_text("-> Result<u8, my::Oops>"),
        Some("my::Oops".to_string())
    );
    assert_eq!(extract_result_error_name_from_text("-> u8"), None);
    assert_eq!(encode_fingerprint_parts(&texts(&["ab", "c"])), "2#ab;1#c");
    assert_ne!(
        encode_fingerprint_parts(&texts(&["a", "bc"])),
        encode_fingerprint_parts(&texts(&["ab", "c"]))
    );
}

#[test]
fn manifests_are_read_for_their_workspace() {
    assert_eq!(manifest_declares_workspace("m", "[workspace]\nmembers = []\n"), Ok(true));
    assert_eq!(manifest_declares_workspace("m", "[package]\nname = \"a\"\n"), Ok(false));
    match manifest_declares_workspace("m", "not = = toml") {
        Err(RaHostInitError::WorkspaceLoad { manifest, .. }) => assert_eq!(manifest, "m"),
        other => panic!("unexpected outcome: {other:?}"),
    }
    assert_eq!(
        package_workspace_override("m", "[package]\nworkspace = \"../root\"\n"),
        Ok(Some("../root".to_string()))
    );
    assert_eq!(package_workspace_override("m", "[package]\nname = \"a\"\n"), Ok(None));
    assert!(package_workspace_override("m", "][").is_err());
    let entry = |key: &str, fields: Option<Vec<ManifestField>>| ManifestEntry {
        key: key.to_string(),
        fields,
    };
    let field = |key: &str, text: Option<&str>| ManifestField {
        key: key.to_string(),
        text: text.map(|text| text.to_string()),
    };
    assert_eq!(declares_workspace_with("m", Ok(vec![entry("workspace", None)])), Ok(true));
    assert_eq!(declares_workspace_with("m", Ok(vec![entry("package", None)])), Ok(false));
    assert!(declares_workspace_with("m", Err("bad".to_string())).is_err());
    let named = vec![field("name", None), field("workspace", Some(".."))];
    let document = vec![entry("lib", None), entry("package", Some(named))];
    assert_eq!(workspace_override_with("m", Ok(document)), Ok(Some("..".to_string())));
    let number = vec![entry("package", Some(vec![field("workspace", None)]))];
    assert_eq!(workspace_override_with("m", Ok(number)), Ok(None));
    assert_eq!(workspace_override_with("m", Ok(vec![entry("package", None)])), Ok(None));
    assert_eq!(workspace_override_with("m", Ok(Vec::new())), Ok(None));
    assert_eq!(package_workspace_override("m", "[package]\nworkspace = 3\n"), Ok(None));
    assert_eq!(package_workspace_override("m", "package = 3\n"), Ok(None));
    assert_eq!(manifest_declares_workspace("m", "workspace = 3\n"), Ok(true));
    assert!(workspace_override_with("m", Err("bad".to_string())).is_err());
}

#[test]
fn the_nearest_declaring_directory_is_the_root() {
    let candidate = |dir: &str, text: &str| RootCandidate {
        dir: dir.to_string(),
        manifest: format!("{dir}/Cargo.toml"),
        text: Ok(text.to_string()),
    };
    let candidates = vec![
        candidate("/w/a", "[package]\nname = \"a\"\n"),
        candidate("/w", "[workspace]\nmembers = [\"a\"]\n"),
        candidate("/", "[workspace]\n"),
    ];
    let own = |text: &str| candidate("/w/a", text);
    assert_eq!(
        true_workspace_root(&own("[package]\n"), &candidates),
        Ok(WorkspaceRoot::Declared {
            dir: "/w".to_string(),
            manifest: "/w/Cargo.toml".to_string(),
        })
    );
    assert_eq!(
        true_workspace_root(&own("[package]\nworkspace = \"../up\"\n"), &candidates),
        Ok(WorkspaceRoot::Named("../up".to_string()))
    );
    assert_eq!(
        true_workspace_root(&own("[package]\n"), &vec![candidate("/w/a", "[package]\n")]),
        Ok(WorkspaceRoot::Own("/w/a".to_string()))
    );
    let unread = RootCandidate {
        dir: "/w".to_string(),
        manifest: "/w/Cargo.toml".to_string(),
        text: Err("denied".to_string()),
    };
    let expected = RaHostInitError::WorkspaceLoad {
        manifest: "/w/Cargo.toml".to_string(),
        details: "denied".to_string(),
    };
    assert_eq!(true_workspace_root(&unread, &candidates), Err(expected.clone()));
    assert_eq!(true_workspace_root(&own("[package]\n"), &vec![unread]), Err(expected));
}

#[test]
fn init_errors_tell_where_they_come_from() {
    let lost = RaHostInitError::WorkspaceNotFound {
        input_path: "/nowhere".to_string(),
        details: "no manifest".to_string(),
    };
    assert!(lost.to_text().contains("/nowhere") && lost.to_text().contains("no manifest"));
    let unread = RaHostInitError::WorkspaceLoad {
        manifest: "Cargo.toml".to_string(),
        details: "bad".to_string(),
    };
    assert!(unread.to_text().contains("Cargo.toml") && unread.to_text().contains("bad"));
}

#[test]
fn watched_files_are_told_apart() {
    assert!(is_relevant_workspace_file(&path_names(None, "lib.rs")));
    assert!(is_relevant_workspace_file(&path_names(None, "Cargo.toml")));
    assert!(is_relevant_workspace_file(&path_names(Some(".cargo"), "config.toml")));
    assert!(!is_relevant_workspace_file(&path_names(None, "notes.txt")));
    assert!(path_requires_reload(&path_names(None, "Cargo.lock"), false));
    assert!(path_requires_reload(&path_names(None, "build.rs"), false));
    assert!(!path_requires_reload(&path_names(None, "lib.rs"), false));
    assert!(path_requires_reload(&path_names(None, "schema.proto"), true));
    assert!(workspace_watch_files().iter().any(|file| file.ends_with("Cargo.toml")));
}

#[test]
fn build_scripts_name_their_inputs() {
    let text = "fn main() { println!(\"cargo:rerun-if-changed=schema.proto\"); }";
    assert_eq!(declared_rerun_if_changed_paths(text), texts(&["schema.proto"]));
    match build_script_rerun_paths(text) {
        RerunPlan::Paths(paths) => assert_eq!(paths, texts(&["schema.proto"])),
        RerunPlan::Package => panic!("the script names a path"),
    }
    assert!(matches!(build_script_rerun_paths("fn main() {}"), RerunPlan::Package));
}

#[test]
fn reloads_follow_sensitive_files() {
    let state = |len: u64| Some(WatchedFileState { len, modified_unix_nanos: Some(5) });
    let path = |requires_reload, before, now| PathState { requires_reload, before, now };
    assert!(!reload_sensitive_files_changed(&vec![path(true, state(1), state(1))]));
    assert!(reload_sensitive_files_changed(&vec![path(true, state(1), state(2))]));
    assert!(reload_sensitive_files_changed(&vec![path(true, None, state(2))]));
    assert!(!reload_sensitive_files_changed(&vec![path(false, state(1), state(2))]));
    let dirs = tracked_directory_watch_set(&texts(&["/w", "/w/src"]), &texts(&["/w/gen"]));
    for dir in ["/w", "/w/src", "/w/gen"] {
        assert!(dirs.iter().any(|d| d == dir));
    }
    let inputs = auxiliary_build_inputs(&texts(&["/w/a", "/w/b"]), &texts(&["/w/b"]));
    assert!(inputs.iter().any(|i| i == "/w/a"));
}

#[test]
fn an_unchanged_workspace_syncs_without_counting() {
    let mut state = SyncState::begin(3, 7);
    let mut events = vec![
        SyncEvent::InputsCompared { changed: false },
        SyncEvent::Drained { any: false, quiet: true },
    ]
    .into_iter();
    let mut steps: usize = 0;
    while state.phase != SyncPhase::Finished {
        let event = match state.phase {
            SyncPhase::Inputs | SyncPhase::Drain => events.next().expect("an event"),
            SyncPhase::Watched | SyncPhase::WatchedStore => SyncEvent::WatchedEnd,
            SyncPhase::Sensitive => SyncEvent::SensitiveCompared { changed: false },
            SyncPhase::Dirs => SyncEvent::DirsCompared { changed: false },
            SyncPhase::Files => SyncEvent::FilesCompared { changed: false },
            SyncPhase::Changed => SyncEvent::ChangedEnd,
            _ => panic!("unexpected phase {:?}", state.phase),
        };
        let (next, _action) = state.step(event);
        state = next;
        steps += 1;
        assert!(steps < 50);
    }
    assert_eq!((state.workspace_epoch, state.content_revision), (3, 7));
}

#[test]
fn a_changed_build_input_reloads_the_workspace() {
    let (state, action) =
        SyncState::begin(3, 7).step(SyncEvent::InputsCompared { changed: true });
    assert!(matches!(action, SyncAction::Reload));
    let (state, _action) = state.step(SyncEvent::Reloaded);
    assert_eq!(state.phase, SyncPhase::Finished);
    assert_eq!((state.workspace_epoch, state.content_revision), (4, 8));
    let (failed, action) = SyncState::begin(3, 7).step(SyncEvent::Broken);
    assert!(matches!(action, SyncAction::Fail));
    assert_eq!(failed.phase, SyncPhase::Failed);
}

#[test]
fn caches_are_primed_by_a_few_threads() {
    assert_eq!(prime_cache_threads(Some(3), Some(16)), 3);
    assert_eq!(prime_cache_threads(None, Some(16)), 4);
    assert_eq!(prime_cache_threads(None, Some(2)), 2);
    assert_eq!(prime_cache_threads(None, None), 1);
    assert_eq!(prime_cache_threads(Some(0), None), 1);
}

#[test]
fn capabilities_are_checked_against_the_catalog() {
    let supported: CapabilitySet = supported_capabilities();
    assert!(supported.len() > 0);
    let name = supported.get(0).as_str().to_string();
    assert!(supported.contains(&name));
    assert_eq!(check_capabilities(&vec![name.clone()]), Ok(()));
    let err = check_capabilities(&vec![name, "no.such_capability".to_string()])
        .expect_err("the capability is unknown");
    assert!(err.contains("no.such_capability"), "{err}");
}

#[test]
fn lookups_are_gated_by_predicate() {
    assert!(lookup_supported("def_name"));
    assert!(!lookup_supported("no_such_predicate"));
    assert!(!lookup_only_enabled(false, "def_name"));
    assert!(matches!(extern_lookup_gate("def_name"), LookupGate::Asked));
    assert_eq!(extern_relation_gate("def_name"), Ok(()));
    assert_eq!(
        extern_relation_gate("no_such_predicate"),
        Err("unsupported rust-analyzer runtime capability: no_such_predicate".to_string())
    );
    assert_eq!(control_depth(-1), 0);
    assert_eq!(control_depth(7), 7);
    assert_eq!(control_depth((1 << 40) + 3), 3);
}

#[test]
fn results_are_projected_value_by_value() {
    assert_eq!(project_value(&RunValue::Number(-4)), ProjectedValue::Int(-4));
    assert_eq!(project_value(&RunValue::Bool(true)), ProjectedValue::Bool(true));
    assert_eq!(project_value(&RunValue::Absent), ProjectedValue::Absent);
    assert_eq!(
        project_value(&RunValue::Present(Box::new(RunValue::Text("x".to_string())))),
        ProjectedValue::Present(Box::new(ProjectedValue::String("x".to_string())))
    );
    let result = project_result(RunResult {
        status: "ok".to_string(),
        notes: texts(&["note"]),
        iterations: 2,
        relations: vec![
            RunRelation { name: "s".to_string(), rows: vec![] },
            RunRelation { name: "r".to_string(), rows: vec![] },
            RunRelation {
                name: "r".to_string(),
                rows: vec![vec![RunValue::List(vec![RunValue::Number(1)])]],
            },
            RunRelation { name: "q".to_string(), rows: vec![] },
        ],
    });
    assert_eq!(result.status, "ok");
    assert_eq!(result.iterations, 2);
    let names: Vec<&str> = result.relations.iter().map(|held| held.name.as_str()).collect();
    assert_eq!(names, ["q", "r", "s"]);
    assert_eq!(
        result.relations[1].rows,
        vec![vec![ProjectedValue::List(vec![ProjectedValue::Int(1)])]]
    );
}

#[test]
fn local_files_are_bounded_and_sorted() {
    let candidate = |id: u32, path: &str| FileCandidate {
        file_id: id,
        source_root: 0,
        is_library: false,
        abs_path: path.to_string(),
    };
    let files = collect_local_files(&vec![candidate(2, "/w/b.rs"), candidate(1, "/w/a.rs")])
        .expect("few files");
    assert_eq!(files.len(), 2);
    let graph = vec![
        CrateNode { is_local: true, in_workspace: true, is_lang: false, deps: vec![1], source_root: 4 },
        CrateNode { is_local: false, in_workspace: false, is_lang: false, deps: vec![], source_root: 9 },
        CrateNode { is_local: false, in_workspace: false, is_lang: true, deps: vec![], source_root: 11 },
    ];
    let roots = selected_source_root_ids(&graph);
    assert!(roots.contains(&4));
    assert!(!roots.contains(&11));
}

#[test]
fn test_modules_are_known_by_name() {
    assert!(module_is_test_scope(&texts(&["tests"])));
    assert!(!module_is_test_scope(&texts(&["alpha"])));
    assert!(module_def_in_test(true, &texts(&[])));
    assert!(!module_def_in_test(false, &texts(&["alpha"])));
}
