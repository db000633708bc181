//! Which files a session tracks, and what a change of one means.

use crate::ra::core_index::holds_text;
use crate::ra::snapshot_text::{trim, trimmed};
use crate::ra::store::with_row;
use crate::search::{cut, occurs, split_at_each};
use crate::text::{chars_of, owned, str_eq, string_of, texts};
use vstd::prelude::*;

verus! {

/// A file or directory on disk, as far as its changes are seen.
#[derive(Debug, Clone, Copy, PartialEq, Eq, Structural)]
pub struct WatchedFileState {
    pub len: u64,
    pub modified_unix_nanos: Option<u128>,
}

/// What a path ends with.
#[derive(Debug, Clone)]
pub struct PathNames {
    pub file_name: Option<String>,
    /// The name of the directory it lies in.
    pub parent_name: Option<String>,
    pub extension: Option<String>,
}

/// A text is there and is the wanted one.
pub open spec fn is_text(text: Option<String>, wanted: Seq<char>) -> bool {
    match text {
        Some(text) => text@ == wanted,
        None => false,
    }
}

/// Whether a text is there and is the wanted one.
fn text_is(text: &Option<String>, wanted: &str) -> (r: bool)
    ensures
        r == is_text(*text, wanted@),
{
    match text {
        Some(text) => str_eq(text.as_str(), wanted),
        None => false,
    }
}

/// The file is a Rust source.
pub open spec fn is_rust(path: PathNames) -> bool {
    is_text(path.extension, "rs"@)
}

/// Whether the file is a Rust source.
pub fn is_rust_file(path: &PathNames) -> (r: bool)
    ensures
        r == is_rust(*path),
{
    text_is(&path.extension, "rs")
}

/// The file is one that a workspace depends on.
pub open spec fn is_relevant(path: PathNames) -> bool {
    path.file_name is Some && (is_text(path.file_name, "Cargo.toml"@) || is_text(
        path.file_name,
        "Cargo.lock"@,
    ) || is_text(path.file_name, "build.rs"@) || is_text(path.file_name, "rust-toolchain"@)
        || is_text(path.file_name, "rust-toolchain.toml"@) || (is_text(
        path.file_name,
        "config.toml"@,
    ) && is_text(path.parent_name, ".cargo"@)) || is_rust(path))
}

/// Whether the file is one that a workspace depends on.
pub fn is_relevant_workspace_file(path: &PathNames) -> (r: bool)
    ensures
        r == is_relevant(*path),
{
    if path.file_name.is_none() {
        return false;
    }
    if text_is(&path.file_name, "Cargo.toml") || text_is(&path.file_name, "Cargo.lock")
        || text_is(&path.file_name, "build.rs") || text_is(&path.file_name, "rust-toolchain")
        || text_is(&path.file_name, "rust-toolchain.toml") {
        return true;
    }
    if text_is(&path.file_name, "config.toml") && text_is(&path.parent_name, ".cargo") {
        return true;
    }
    is_rust_file(path)
}

/// A change of the file means that the workspace has to be loaded again.
pub open spec fn needs_reload(path: PathNames, reruns_build: bool) -> bool {
    is_text(path.file_name, "build.rs"@) || reruns_build || !is_rust(path)
}

/// Whether a change of the file means that the workspace has to be loaded again.
/// `reruns_build` says that a build script is run again when the file changes.
pub fn path_requires_reload(path: &PathNames, reruns_build: bool) -> (r: bool)
    ensures
        r == needs_reload(*path, reruns_build),
{
    if text_is(&path.file_name, "build.rs") {
        return true;
    }
    if reruns_build {
        return true;
    }
    !is_rust_file(path)
}

/// A file that can be edited without loading the workspace again is one that the
/// workspace depends on.
pub proof fn law_incremental_files_are_relevant(path: PathNames, reruns_build: bool)
    requires
        path.file_name is Some,
        !needs_reload(path, reruns_build),
    ensures
        is_relevant(path),
{
}

/// The text up to the first quote or line end.
pub open spec fn until_quote(text: Seq<char>, i: int) -> Seq<char>
    decreases text.len() - i,
{
    if i < 0 || i >= text.len() || text[i] == '"' || text[i] == '\n' || text[i] == '\r' {
        Seq::empty()
    } else {
        seq![text[i]] + until_quote(text, i + 1)
    }
}

/// The path that a declaration names, unless it names none: paths that are put
/// together when the script runs are not known.
pub open spec fn declared_path(segment: Seq<char>) -> Option<Seq<char>> {
    let path = trimmed(until_quote(segment, 0));
    if path.len() == 0 || occurs(path, "{"@) || occurs(path, "}"@) {
        None
    } else {
        Some(path)
    }
}

/// The paths that the first `count` of the segments name.
pub open spec fn declared_paths(segments: Seq<Seq<char>>, count: nat) -> Seq<Seq<char>>
    decreases count,
{
    if count == 0 {
        Seq::empty()
    } else {
        match declared_path(segments[count - 1]) {
            Some(path) => declared_paths(segments, (count - 1) as nat).push(path),
            None => declared_paths(segments, (count - 1) as nat),
        }
    }
}

/// The paths that a build script with the text declares to depend on.
pub open spec fn rerun_paths(text: Seq<char>) -> Seq<Seq<char>> {
    let segments = cut(text, "cargo:rerun-if-changed="@).drop_first();
    declared_paths(segments, segments.len())
}

/// The text up to the first quote or line end.
fn take_until_quote(text: &str) -> (r: String)
    ensures
        r@ == until_quote(text@, 0),
{
    let chars = chars_of(text);
    let mut i: usize = 0;
    assert(text@.take(0) + until_quote(text@, 0) =~= until_quote(text@, 0));
    while i < chars.len() && chars[i] != '"' && chars[i] != '\n' && chars[i] != '\r'
        invariant
            chars@ == text@,
            i <= chars@.len(),
            text@.take(i as int) + until_quote(text@, i as int) == until_quote(text@, 0),
        decreases chars.len() - i,
    {
        assert(text@.take(i as int) + (seq![text@[i as int]] + until_quote(text@, i + 1))
            =~= text@.take(i + 1) + until_quote(text@, i + 1));
        i += 1;
    }
    assert(text@.take(i as int) + Seq::<char>::empty() =~= text@.take(i as int));
    assert(text@.take(i as int) =~= text@.subrange(0, i as int));
    string_of(&chars, 0, i)
}

/// The path that a declaration names.
fn path_declared(segment: &str) -> (r: Option<String>)
    ensures
        crate::ra::rows::opt_text(r) == declared_path(segment@),
{
    let path = trim(take_until_quote(segment).as_str());
    proof {
        reveal_strlit("");
        if path@.len() == 0 {
            assert(path@ =~= ""@);
        }
    }
    if str_eq(path.as_str(), "") || crate::search::contains_text(path.as_str(), "{")
        || crate::search::contains_text(path.as_str(), "}") {
        None
    } else {
        Some(path)
    }
}

/// The paths that a build script with the text declares to depend on.
pub fn declared_rerun_if_changed_paths(text: &str) -> (r: Vec<String>)
    ensures
        texts(r@) == rerun_paths(text@),
{
    proof {
        reveal_strlit("cargo:rerun-if-changed=");
    }
    let segments = split_at_each(text, "cargo:rerun-if-changed=");
    let ghost all = texts(segments@).drop_first();
    let mut out: Vec<String> = Vec::new();
    let mut i: usize = 1;
    assert(texts(out@) =~= Seq::<Seq<char>>::empty());
    assert(segments@.len() == texts(segments@).len());
    while i < segments.len()
        invariant
            segments@.len() >= 1,
            all == texts(segments@).drop_first(),
            1 <= i <= segments@.len(),
            texts(out@) == declared_paths(all, (i - 1) as nat),
        decreases segments.len() - i,
    {
        assert(all[i - 1] == segments@[i as int]@);
        match path_declared(segments[i].as_str()) {
            Some(path) => {
                let ghost before = texts(out@);
                let ghost shown = path@;
                out.push(path);
                assert(texts(out@) =~= before.push(shown));
            },
            None => {},
        }
        i += 1;
    }
    out
}

/// The directories told so far with more, each once.
pub open spec fn with_paths(paths: Seq<Seq<char>>, more: Seq<Seq<char>>, count: nat) -> Seq<
    Seq<char>,
>
    decreases count,
{
    if count == 0 {
        paths
    } else {
        with_row(with_paths(paths, more, (count - 1) as nat), more[count - 1])
    }
}

/// Adds paths, each once.
pub fn add_paths(paths: &mut Vec<String>, more: &Vec<String>)
    ensures
        texts(final(paths)@) == with_paths(texts(old(paths)@), texts(more@), more@.len()),
{
    let ghost start = texts(paths@);
    let mut i: usize = 0;
    while i < more.len()
        invariant
            start == texts(old(paths)@),
            i <= more@.len(),
            texts(paths@) == with_paths(start, texts(more@), i as nat),
        decreases more.len() - i,
    {
        assert(texts(more@)[i as int] == more@[i as int]@);
        if !holds_text(paths, more[i].as_str()) {
            let ghost before = texts(paths@);
            paths.push(owned(more[i].as_str()));
            assert(texts(paths@) =~= before.push(more@[i as int]@));
        }
        i += 1;
    }
}

/// The directories to watch: those of the tracked files, then those that are
/// watched as such.
pub fn tracked_directory_watch_set(parents: &Vec<String>, watched: &Vec<String>) -> (r: Vec<String>)
    ensures
        texts(r@) == with_paths(
            with_paths(Seq::empty(), texts(parents@), parents@.len()),
            texts(watched@),
            watched@.len(),
        ),
{
    let mut dirs: Vec<String> = Vec::new();
    assert(texts(dirs@) =~= Seq::<Seq<char>>::empty());
    add_paths(&mut dirs, parents);
    add_paths(&mut dirs, watched);
    dirs
}

/// The watched paths that are not tracked.
pub open spec fn untracked(watched: Seq<Seq<char>>, files: Seq<Seq<char>>, count: nat) -> Seq<
    Seq<char>,
>
    decreases count,
{
    if count == 0 {
        Seq::empty()
    } else {
        let rest = untracked(watched, files, (count - 1) as nat);
        if files.contains(watched[count - 1]) {
            rest
        } else {
            rest.push(watched[count - 1])
        }
    }
}

/// The inputs of build scripts whose state is watched apart: those that are not
/// tracked as files.
pub fn auxiliary_build_inputs(watched: &Vec<String>, files: &Vec<String>) -> (r: Vec<String>)
    ensures
        texts(r@) == untracked(texts(watched@), texts(files@), watched@.len()),
{
    let mut out: Vec<String> = Vec::new();
    let mut i: usize = 0;
    assert(texts(out@) =~= Seq::<Seq<char>>::empty());
    while i < watched.len()
        invariant
            i <= watched@.len(),
            texts(out@) == untracked(texts(watched@), texts(files@), i as nat),
        decreases watched.len() - i,
    {
        assert(texts(watched@)[i as int] == watched@[i as int]@);
        if !holds_text(files, watched[i].as_str()) {
            let ghost before = texts(out@);
            out.push(owned(watched[i].as_str()));
            assert(texts(out@) =~= before.push(watched@[i as int]@));
        }
        i += 1;
    }
    out
}

/// The state of a path: when it was last looked at, and now.
pub struct PathState {
    pub requires_reload: bool,
    pub before: Option<WatchedFileState>,
    pub now: Option<WatchedFileState>,
}

/// A path whose change loads the workspace again has changed, or is gone.
pub open spec fn is_disturbed(path: PathState) -> bool {
    path.requires_reload && !(path.before is Some && path.now is Some && path.before
        == path.now)
}

/// Whether a path whose change loads the workspace again has changed.
pub fn reload_sensitive_files_changed(paths: &Vec<PathState>) -> (r: bool)
    ensures
        r == exists|i: int| 0 <= i < paths@.len() && is_disturbed(#[trigger] paths@[i]),
{
    let mut i: usize = 0;
    while i < paths.len()
        invariant
            i <= paths@.len(),
            forall|k: int| 0 <= k < i ==> !is_disturbed(#[trigger] paths@[k]),
        decreases paths.len() - i,
    {
        let path = &paths[i];
        if path.requires_reload {
            let same = match (path.before, path.now) {
                (Some(before), Some(now)) => before == now,
                _ => false,
            };
            if !same {
                assert(is_disturbed(paths@[i as int]));
                return true;
            }
        }
        i += 1;
    }
    false
}

/// The files below a workspace's root that are watched besides its manifest.
pub open spec fn watch_names() -> Seq<Seq<char>> {
    seq![
        "Cargo.toml"@,
        "Cargo.lock"@,
        "rust-toolchain"@,
        "rust-toolchain.toml"@,
        ".cargo/config.toml"@,
    ]
}

/// The files below a workspace's root that are watched besides its manifest.
pub fn workspace_watch_files() -> (r: Vec<String>)
    ensures
        texts(r@) == watch_names(),
{
    let mut out: Vec<String> = Vec::new();
    out.push(owned("Cargo.toml"));
    out.push(owned("Cargo.lock"));
    out.push(owned("rust-toolchain"));
    out.push(owned("rust-toolchain.toml"));
    out.push(owned(".cargo/config.toml"));
    assert(texts(out@) =~= watch_names());
    out
}

/// What a build script's change depends on.
pub enum RerunPlan {
    /// Every file of its package.
    Package,
    /// The declared paths, and every file below those that are directories.
    Paths(Vec<String>),
}

/// What the change of a build script with the text depends on: the paths it
/// declares, or its whole package where it declares none.
pub fn build_script_rerun_paths(text: &str) -> (r: RerunPlan)
    ensures
        match r {
            RerunPlan::Package => rerun_paths(text@).len() == 0,
            RerunPlan::Paths(paths) => paths@.len() > 0 && texts(paths@) == rerun_paths(text@),
        },
{
    let paths = declared_rerun_if_changed_paths(text);
    assert(texts(paths@).len() == paths@.len());
    if paths.len() == 0 {
        RerunPlan::Package
    } else {
        RerunPlan::Paths(paths)
    }
}

} // verus!
