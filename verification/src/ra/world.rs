//! The identity of the indexed state of a workspace.

use crate::host::WorldStamp;
use crate::ra::snapshot_text::{snapshot_path, snapshot_path_with_hash, trim, trimmed, PathFacts};
use crate::sorting::{law_sorting_orders, ordered, sort_ranked, sorted, views, Ranked};
use crate::text::{
    cat2, cat3, hex16, hex_digits, join_strings, joined, lemma_text_ranks, owned, str_eq, text_before, text_less, texts,
};
use rustc_hash::FxHasher;
use std::hash::{Hash, Hasher};
use vstd::prelude::*;

verus! {

/// Something that a hash is made of.
pub enum HashInput {
    Text(String),
    Bytes(Vec<u8>),
    Mark(u8),
}

/// What an input of a hash says.
pub enum HashInputView {
    Text(Seq<char>),
    Bytes(Seq<u8>),
    Mark(u8),
}

impl View for HashInput {
    type V = HashInputView;

    open spec fn view(&self) -> HashInputView {
        match self {
            HashInput::Text(text) => HashInputView::Text(text@),
            HashInput::Bytes(bytes) => HashInputView::Bytes(bytes@),
            HashInput::Mark(mark) => HashInputView::Mark(*mark),
        }
    }
}

/// What inputs of a hash say.
pub open spec fn input_views(inputs: Seq<HashInput>) -> Seq<HashInputView> {
    inputs.map_values(|input: HashInput| input@)
}

/// The hash of inputs on machines of a sort.
pub uninterp spec fn digest_on(machine: nat, inputs: Seq<HashInputView>) -> u64;

/// `FxHasher` of `rustc_hash`, fed with each input in turn, and its `finish`: the
/// hash depends on the inputs and on the sort of machine alone. Machines of
/// different word sizes or instruction sets give different hashes, so it is not
/// said on which the call runs.
#[verifier::external_body]
fn digest(inputs: &Vec<HashInput>) -> (r: u64)
    ensures
        exists|machine: nat| r == #[trigger] digest_on(machine, input_views(inputs@)),
{
    let mut hasher = FxHasher::default();
    for input in inputs {
        match input {
            HashInput::Text(text) => text.hash(&mut hasher),
            HashInput::Bytes(bytes) => bytes.hash(&mut hasher),
            HashInput::Mark(mark) => mark.hash(&mut hasher),
        }
    }
    hasher.finish()
}

/// A file that the index is made from.
pub struct WorldFile {
    pub rel_path: String,
    pub text: String,
}

/// What a file says.
pub struct WorldFileView {
    pub rel_path: Seq<char>,
    pub text: Seq<char>,
}

impl View for WorldFile {
    type V = WorldFileView;

    open spec fn view(&self) -> WorldFileView {
        WorldFileView { rel_path: self.rel_path@, text: self.text@ }
    }
}

/// What files say.
pub open spec fn file_views(files: Seq<WorldFile>) -> Seq<WorldFileView> {
    files.map_values(|file: WorldFile| file@)
}

impl Ranked for String {
    open spec fn before(a: Seq<char>, b: Seq<char>) -> bool {
        text_before(a, b)
    }

    proof fn lemma_order(a: Seq<char>, b: Seq<char>, c: Seq<char>) {
        lemma_text_ranks(a, b, c);
    }

    fn is_before(&self, other: &String) -> (r: bool) {
        text_less(self.as_str(), other.as_str())
    }

    fn twin(&self) -> (r: String) {
        owned(self.as_str())
    }
}

/// Files stand in the order of their paths.
impl Ranked for WorldFile {
    open spec fn before(a: WorldFileView, b: WorldFileView) -> bool {
        text_before(a.rel_path, b.rel_path)
    }

    proof fn lemma_order(a: WorldFileView, b: WorldFileView, c: WorldFileView) {
        lemma_text_ranks(a.rel_path, b.rel_path, c.rel_path);
    }

    fn is_before(&self, other: &WorldFile) -> (r: bool) {
        text_less(self.rel_path.as_str(), other.rel_path.as_str())
    }

    fn twin(&self) -> (r: WorldFile) {
        WorldFile { rel_path: owned(self.rel_path.as_str()), text: owned(self.text.as_str()) }
    }
}

/// The first `count` texts in order.
pub open spec fn sorted_texts(items: Seq<Seq<char>>, count: nat) -> Seq<Seq<char>> {
    sorted::<String>(items, count)
}

/// The first `count` files in the order of their paths.
pub open spec fn sorted_files(files: Seq<WorldFileView>, count: nat) -> Seq<WorldFileView> {
    sorted::<WorldFile>(files, count)
}

/// What the hash of the first `count` files is made of.
pub open spec fn file_inputs(files: Seq<WorldFileView>, count: nat) -> Seq<HashInputView>
    decreases count,
{
    if count == 0 {
        Seq::empty()
    } else {
        let file = files[count - 1];
        file_inputs(files, (count - 1) as nat) + seq![
            HashInputView::Text(file.rel_path),
            HashInputView::Mark(0xff),
            HashInputView::Bytes(vstd::utf8::encode_utf8(file.text)),
            HashInputView::Mark(0xfe),
        ]
    }
}

/// What the hash of a world is made of: the files in the order of their paths,
/// then the identity of what the index was made with.
pub open spec fn world_input_views(
    files: Seq<WorldFileView>,
    semantic_identity: Seq<char>,
) -> Seq<HashInputView> {
    let sorted = sorted_files(files, files.len());
    file_inputs(sorted, sorted.len()) + seq![
        HashInputView::Text(semantic_identity),
        HashInputView::Mark(0xfd),
    ]
}

/// The stamp of a world with a hash.
pub open spec fn stamp_text(workspace_root: Seq<char>, hash: u64) -> Seq<char> {
    "ra-workspace:"@ + workspace_root + ":"@ + hex_digits(hash as nat, 16)
}

/// The texts in order.
pub fn sort_texts(items: &Vec<String>) -> (r: Vec<String>)
    ensures
        texts(r@) == sorted_texts(texts(items@), items@.len()),
{
    let out = sort_ranked(items);
    assert(texts(items@) =~= views(items@));
    assert(texts(out@) =~= views(out@));
    out
}

/// The files in the order of their paths.
pub fn sort_files(files: &Vec<WorldFile>) -> (r: Vec<WorldFile>)
    ensures
        file_views(r@) == sorted_files(file_views(files@), files@.len()),
{
    let out = sort_ranked(files);
    assert(file_views(files@) =~= views(files@));
    assert(file_views(out@) =~= views(out@));
    out
}

/// Each file's path is not after the next one's.
pub open spec fn files_ordered(files: Seq<WorldFileView>) -> bool {
    ordered::<WorldFile>(files)
}

/// Sorting files puts them in the order of their paths and changes none.
pub proof fn law_files_are_sorted(files: Seq<WorldFileView>, count: nat)
    requires
        count <= files.len(),
    ensures
        files_ordered(sorted_files(files, count)),
        sorted_files(files, count).to_multiset() == files.take(count as int).to_multiset(),
{
    law_sorting_orders::<WorldFile>(files, count);
}

/// No text stands before one in front of it.
pub open spec fn texts_ordered(items: Seq<Seq<char>>) -> bool {
    ordered::<String>(items)
}

/// Sorting texts puts them in order and changes none.
pub proof fn law_texts_are_sorted(items: Seq<Seq<char>>, count: nat)
    requires
        count <= items.len(),
    ensures
        texts_ordered(sorted_texts(items, count)),
        sorted_texts(items, count).to_multiset() == items.take(count as int).to_multiset(),
{
    law_sorting_orders::<String>(items, count);
}

/// What the hash of a world is made of.
pub fn world_inputs(files: &Vec<WorldFile>, semantic_identity: &str) -> (r: Vec<HashInput>)
    ensures
        input_views(r@) == world_input_views(file_views(files@), semantic_identity@),
{
    let sorted = sort_files(files);
    let ghost all = file_views(sorted@);
    let mut out: Vec<HashInput> = Vec::new();
    let mut i: usize = 0;
    assert(input_views(out@) =~= Seq::<HashInputView>::empty());
    while i < sorted.len()
        invariant
            all == file_views(sorted@),
            i <= sorted@.len(),
            input_views(out@) == file_inputs(all, i as nat),
        decreases sorted.len() - i,
    {
        let file = &sorted[i];
        assert(all[i as int] == file@);
        let ghost before = input_views(out@);
        let text = file.text.as_str();
        let bytes = vstd::slice::slice_to_vec(text.as_bytes());
        out.push(HashInput::Text(owned(file.rel_path.as_str())));
        out.push(HashInput::Mark(0xff));
        out.push(HashInput::Bytes(bytes));
        out.push(HashInput::Mark(0xfe));
        assert(input_views(out@) =~= before + seq![
            HashInputView::Text(file.rel_path@),
            HashInputView::Mark(0xff),
            HashInputView::Bytes(vstd::utf8::encode_utf8(file.text@)),
            HashInputView::Mark(0xfe),
        ]);
        i += 1;
    }
    let ghost before = input_views(out@);
    out.push(HashInput::Text(owned(semantic_identity)));
    out.push(HashInput::Mark(0xfd));
    assert(input_views(out@) =~= before + seq![
        HashInputView::Text(semantic_identity@),
        HashInputView::Mark(0xfd),
    ]);
    out
}

/// The stamp of a world with a hash.
pub fn world_stamp_with_hash(workspace_root: &str, hash: u64) -> (r: WorldStamp)
    ensures
        r@ == stamp_text(workspace_root@, hash),
{
    let mut out = cat2("ra-workspace:", workspace_root);
    out.append(":");
    out.append(hex16(hash).as_str());
    WorldStamp::new(out.as_str())
}

/// The stamp of a world on machines of a sort.
pub open spec fn stamp_on(
    machine: nat,
    workspace_root: Seq<char>,
    files: Seq<WorldFileView>,
    semantic_identity: Seq<char>,
) -> Seq<char> {
    stamp_text(workspace_root, digest_on(machine, world_input_views(files, semantic_identity)))
}

/// The stamp of a world: its root and a hash of what [`world_inputs`] lists.
pub fn compute_world_stamp(
    workspace_root: &str,
    files: &Vec<WorldFile>,
    semantic_identity: &str,
) -> (r: WorldStamp)
    ensures
        exists|machine: nat|
            r@ == #[trigger] stamp_on(
                machine,
                workspace_root@,
                file_views(files@),
                semantic_identity@,
            ),
{
    let inputs = world_inputs(files, semantic_identity);
    let hash = digest(&inputs);
    proof {
        let machine = choose|machine: nat|
            hash == #[trigger] digest_on(machine, input_views(inputs@));
        assert(stamp_text(workspace_root@, hash) == stamp_on(
            machine,
            workspace_root@,
            file_views(files@),
            semantic_identity@,
        ));
    }
    world_stamp_with_hash(workspace_root, hash)
}

/// A configuration file that the index depends on.
pub struct ConfigFile {
    pub rel_path: String,
    pub bytes: Vec<u8>,
}

/// The line for a configuration file with a hash.
pub open spec fn config_line(rel_path: Seq<char>, hash: u64) -> Seq<char> {
    rel_path + ":"@ + hex_digits(hash as nat, 16)
}

/// The line for a configuration file with a hash.
pub fn config_line_with_hash(rel_path: &str, hash: u64) -> (r: String)
    ensures
        r@ == config_line(rel_path@, hash),
{
    cat3(rel_path, ":", hex16(hash).as_str())
}

/// The line for a configuration file on machines of a sort.
pub open spec fn config_line_on(machine: nat, file: ConfigFile) -> Seq<char> {
    config_line(file.rel_path@, digest_on(machine, seq![HashInputView::Bytes(file.bytes@)]))
}

/// The line for a configuration file: its path and a hash of its bytes.
pub fn config_file_line(file: &ConfigFile) -> (r: String)
    ensures
        exists|machine: nat| r@ == #[trigger] config_line_on(machine, *file),
{
    let mut inputs: Vec<HashInput> = Vec::new();
    let bytes = vstd::slice::slice_to_vec(file.bytes.as_slice());
    inputs.push(HashInput::Bytes(bytes));
    let hash = digest(&inputs);
    proof {
        assert(input_views(inputs@) =~= seq![HashInputView::Bytes(file.bytes@)]);
        let machine = choose|machine: nat|
            hash == #[trigger] digest_on(machine, input_views(inputs@));
        assert(config_line(file.rel_path@, hash) == config_line_on(machine, *file));
    }
    config_line_with_hash(file.rel_path.as_str(), hash)
}

/// The line is one for the configuration file.
pub open spec fn is_config_line(line: WorldFileView, file: ConfigFile) -> bool {
    line.rel_path == file.rel_path@ && exists|machine: nat|
        line.text == #[trigger] config_line_on(machine, file)
}

/// The lines are ones for the configuration files.
pub open spec fn are_config_lines(lines: Seq<WorldFileView>, files: Seq<ConfigFile>) -> bool {
    lines.len() == files.len() && forall|i: int|
        0 <= i < files.len() ==> is_config_line(#[trigger] lines[i], files[i])
}

/// The texts of files.
pub open spec fn file_texts(files: Seq<WorldFileView>) -> Seq<Seq<char>> {
    Seq::new(files.len(), |i: int| files[i].text)
}

/// The lines for configuration files, in the order of their paths.
pub fn collect_workspace_config_file_hashes(files: &Vec<ConfigFile>) -> (r: Vec<String>)
    ensures
        exists|lines: Seq<WorldFileView>| #[trigger]
            are_config_lines(lines, files@) && texts(r@) == file_texts(
                sorted_files(lines, lines.len()),
            ),
{
    let mut lines: Vec<WorldFile> = Vec::new();
    let mut i: usize = 0;
    while i < files.len()
        invariant
            i <= files@.len(),
            lines@.len() == i,
            forall|k: int| 0 <= k < i ==> is_config_line((#[trigger] lines@[k])@, files@[k]),
        decreases files.len() - i,
    {
        let line = config_file_line(&files[i]);
        lines.push(WorldFile { rel_path: owned(files[i].rel_path.as_str()), text: line });
        i += 1;
    }
    let ghost all = file_views(lines@);
    proof {
        assert forall|k: int| 0 <= k < files@.len() implies is_config_line(
            #[trigger] all[k],
            files@[k],
        ) by {
            assert(all[k] == lines@[k]@);
        }
        assert(are_config_lines(all, files@));
    }
    let sorted = sort_files(&lines);
    let ghost shown = file_views(sorted@);
    let mut out: Vec<String> = Vec::new();
    let mut j: usize = 0;
    while j < sorted.len()
        invariant
            shown == file_views(sorted@),
            j <= sorted@.len(),
            out@.len() == j,
            forall|k: int| 0 <= k < j ==> (#[trigger] out@[k])@ == shown[k].text,
        decreases sorted.len() - j,
    {
        assert(shown[j as int] == sorted@[j as int]@);
        out.push(owned(sorted[j].text.as_str()));
        j += 1;
    }
    assert(texts(out@) =~= file_texts(shown));
    out
}

/// The name that a snapshot gives a file on machines of a sort.
pub open spec fn snapshot_path_on(machine: nat, facts: PathFacts, is_library: bool) -> Seq<char> {
    snapshot_path(facts, is_library, digest_on(machine, seq![HashInputView::Text(facts.full@)]))
}

/// The name that a snapshot gives a file.
pub fn normalize_snapshot_path(facts: &PathFacts, is_library: bool) -> (r: String)
    ensures
        exists|machine: nat| r@ == #[trigger] snapshot_path_on(machine, *facts, is_library),
{
    let mut inputs: Vec<HashInput> = Vec::new();
    inputs.push(HashInput::Text(owned(facts.full.as_str())));
    let hash = digest(&inputs);
    proof {
        assert(input_views(inputs@) =~= seq![HashInputView::Text(facts.full@)]);
        let machine = choose|machine: nat|
            hash == #[trigger] digest_on(machine, input_views(inputs@));
        assert(snapshot_path(*facts, is_library, hash) == snapshot_path_on(
            machine,
            *facts,
            is_library,
        ));
    }
    snapshot_path_with_hash(facts, is_library, hash)
}

/// A directory that holds no configuration of the workspace.
pub open spec fn is_skipped_dir(name: Seq<char>) -> bool {
    name == "target"@ || name == ".git"@ || name == ".jj"@
}

/// Whether a directory holds no configuration of the workspace.
pub fn skips_dir(name: &str) -> (r: bool)
    ensures
        r == is_skipped_dir(name@),
{
    str_eq(name, "target") || str_eq(name, ".git") || str_eq(name, ".jj")
}

/// A file whose contents the index depends on.
pub open spec fn is_config_name(name: Seq<char>) -> bool {
    name == "Cargo.toml"@ || name == "Cargo.lock"@ || name == "rust-toolchain"@ || name
        == "rust-toolchain.toml"@ || name == "config.toml"@
}

/// Whether the index depends on the contents of a file of the name.
pub fn tracks_config(name: &str) -> (r: bool)
    ensures
        r == is_config_name(name@),
{
    str_eq(name, "Cargo.toml") || str_eq(name, "Cargo.lock") || str_eq(name, "rust-toolchain")
        || str_eq(name, "rust-toolchain.toml") || str_eq(name, "config.toml")
}

/// What is known of a crate.
pub struct CrateFacts {
    pub display_name: Option<String>,
    pub version: Option<String>,
    pub edition: String,
    pub cfg: String,
    /// The dependencies: the name they are used by, and the name they have.
    pub deps: Vec<(String, Option<String>)>,
}

/// A text, or what stands for none.
pub open spec fn or_else(text: Option<String>, other: Seq<char>) -> Seq<char> {
    match text {
        Some(text) => text@,
        None => other,
    }
}

/// The line of a dependency.
pub open spec fn dep_text(dep: (String, Option<String>)) -> Seq<char> {
    dep.0@ + "->"@ + or_else(dep.1, "<anon>"@)
}

/// The lines of dependencies.
pub open spec fn dep_texts(deps: Seq<(String, Option<String>)>) -> Seq<Seq<char>> {
    Seq::new(deps.len(), |i: int| dep_text(deps[i]))
}

/// The signature of a crate.
pub open spec fn crate_text(facts: CrateFacts) -> Seq<char> {
    "crate:"@ + or_else(facts.display_name, "<anon>"@) + ":"@ + or_else(facts.version, ""@)
        + ":"@ + facts.edition@ + ":"@ + facts.cfg@ + ":deps=["@ + joined(
        sorted_texts(dep_texts(facts.deps@), facts.deps@.len()),
        ","@,
    ) + "]"@
}

/// A text, or what stands for none.
fn text_or(text: &Option<String>, other: &str) -> (r: String)
    ensures
        r@ == or_else(*text, other@),
{
    match text {
        Some(text) => owned(text.as_str()),
        None => owned(other),
    }
}

/// The lines of dependencies, in order.
fn dep_lines(deps: &Vec<(String, Option<String>)>) -> (r: String)
    ensures
        r@ == joined(sorted_texts(dep_texts(deps@), deps@.len()), ","@),
{
    let mut lines: Vec<String> = Vec::new();
    let mut i: usize = 0;
    while i < deps.len()
        invariant
            i <= deps@.len(),
            lines@.len() == i,
            forall|k: int| 0 <= k < i ==> (#[trigger] lines@[k])@ == dep_text(deps@[k]),
        decreases deps.len() - i,
    {
        lines.push(cat3(deps[i].0.as_str(), "->", text_or(&deps[i].1, "<anon>").as_str()));
        i += 1;
    }
    assert(texts(lines@) =~= dep_texts(deps@));
    join_strings(&sort_texts(&lines), ",")
}

/// The signature of a crate.
pub fn crate_signature(facts: &CrateFacts) -> (r: String)
    ensures
        r@ == crate_text(*facts),
{
    let mut out = cat2("crate:", text_or(&facts.display_name, "<anon>").as_str());
    out.append(":");
    out.append(text_or(&facts.version, "").as_str());
    out.append(":");
    out.append(facts.edition.as_str());
    out.append(":");
    out.append(facts.cfg.as_str());
    out.append(":deps=[");
    out.append(dep_lines(&facts.deps).as_str());
    out.append("]");
    out
}

/// The signatures of crates.
pub open spec fn crate_texts(crates: Seq<CrateFacts>) -> Seq<Seq<char>> {
    Seq::new(crates.len(), |i: int| crate_text(crates[i]))
}

/// The settings as lines.
pub open spec fn setting_texts(settings: Seq<(String, String)>) -> Seq<Seq<char>> {
    Seq::new(settings.len(), |i: int| settings[i].0@ + "="@ + settings[i].1@)
}

/// The identity of what an index is made with.
pub open spec fn identity_text(
    crates: Seq<CrateFacts>,
    env: Seq<(String, String)>,
    tools: Seq<String>,
    configs: Seq<String>,
) -> Seq<char> {
    "semantic:crates=["@ + joined(sorted_texts(crate_texts(crates), crates.len()), "|"@)
        + "];env=["@ + joined(setting_texts(env), "|"@) + "];tools=["@ + joined(
        texts(tools),
        "|"@,
    ) + "];configs=["@ + joined(texts(configs), "|"@) + "]"@
}

/// The names of the settings of the environment that an index depends on, in
/// order.
pub fn env_axes() -> (r: Vec<&'static str>)
    ensures
        r@.len() == 7,
        r@[0]@ == "CARGO_BUILD_TARGET"@,
        r@[1]@ == "CARGO_CFG_TARGET_ARCH"@,
        r@[2]@ == "CARGO_CFG_TARGET_ENV"@,
        r@[3]@ == "CARGO_CFG_TARGET_OS"@,
        r@[4]@ == "CARGO_ENCODED_RUSTFLAGS"@,
        r@[5]@ == "RUSTFLAGS"@,
        r@[6]@ == "RUSTUP_TOOLCHAIN"@,
{
    let mut out: Vec<&'static str> = Vec::new();
    out.push("CARGO_BUILD_TARGET");
    out.push("CARGO_CFG_TARGET_ARCH");
    out.push("CARGO_CFG_TARGET_ENV");
    out.push("CARGO_CFG_TARGET_OS");
    out.push("CARGO_ENCODED_RUSTFLAGS");
    out.push("RUSTFLAGS");
    out.push("RUSTUP_TOOLCHAIN");
    out
}

/// The line for what a tool says of itself.
pub open spec fn tool_text(tool: Seq<char>, output: Seq<char>) -> Seq<char> {
    tool + ":"@ + trimmed(output)
}

/// The line for what a tool says of itself.
pub fn tool_line(tool: &str, output: &str) -> (r: String)
    ensures
        r@ == tool_text(tool@, output@),
{
    cat3(tool, ":", trim(output).as_str())
}

/// The settings as lines.
fn setting_lines(settings: &Vec<(String, String)>) -> (r: String)
    ensures
        r@ == joined(setting_texts(settings@), "|"@),
{
    let mut lines: Vec<String> = Vec::new();
    let mut i: usize = 0;
    while i < settings.len()
        invariant
            i <= settings@.len(),
            lines@.len() == i,
            forall|k: int|
                0 <= k < i ==> (#[trigger] lines@[k])@ == settings@[k].0@ + "="@ + settings@[k].1@,
        decreases settings.len() - i,
    {
        lines.push(cat3(settings[i].0.as_str(), "=", settings[i].1.as_str()));
        i += 1;
    }
    assert(texts(lines@) =~= setting_texts(settings@));
    join_strings(&lines, "|")
}

/// The signatures of crates, in order.
fn crate_lines(crates: &Vec<CrateFacts>) -> (r: String)
    ensures
        r@ == joined(sorted_texts(crate_texts(crates@), crates@.len()), "|"@),
{
    let mut lines: Vec<String> = Vec::new();
    let mut i: usize = 0;
    while i < crates.len()
        invariant
            i <= crates@.len(),
            lines@.len() == i,
            forall|k: int| 0 <= k < i ==> (#[trigger] lines@[k])@ == crate_text(crates@[k]),
        decreases crates.len() - i,
    {
        lines.push(crate_signature(&crates[i]));
        i += 1;
    }
    assert(texts(lines@) =~= crate_texts(crates@));
    join_strings(&sort_texts(&lines), "|")
}

/// The identity of what an index is made with: the crates, the settings of the
/// environment named by [`env_axes`], what the tools say of themselves, and the
/// lines of the configuration files.
pub fn compute_semantic_identity(
    crates: &Vec<CrateFacts>,
    env: &Vec<(String, String)>,
    tools: &Vec<String>,
    configs: &Vec<String>,
) -> (r: String)
    ensures
        r@ == identity_text(crates@, env@, tools@, configs@),
{
    let mut out = cat2("semantic:crates=[", crate_lines(crates).as_str());
    out.append("];env=[");
    out.append(setting_lines(env).as_str());
    out.append("];tools=[");
    out.append(join_strings(tools, "|").as_str());
    out.append("];configs=[");
    out.append(join_strings(configs, "|").as_str());
    out.append("]");
    out
}

} // verus!
