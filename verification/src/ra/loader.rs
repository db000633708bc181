//! Which directory is the root of a workspace.

use crate::ra::init_error::RaHostInitError;
use crate::ra::rows::opt_text;
use crate::text::{owned, str_eq};
use toml::Value;
use vstd::prelude::*;

verus! {

/// An entry of a table in a document.
#[derive(Debug)]
pub struct ManifestField {
    pub key: String,
    /// What it holds, where that is a text.
    pub text: Option<String>,
}

/// An entry at the top of a document.
#[derive(Debug)]
pub struct ManifestEntry {
    pub key: String,
    /// The entries in it, where it is a table.
    pub fields: Option<Vec<ManifestField>>,
}

/// What an entry of a table says.
pub struct FieldView {
    pub key: Seq<char>,
    pub text: Option<Seq<char>>,
}

/// What an entry at the top says.
pub struct EntryView {
    pub key: Seq<char>,
    pub fields: Option<Seq<FieldView>>,
}

impl View for ManifestField {
    type V = FieldView;

    open spec fn view(&self) -> FieldView {
        FieldView { key: self.key@, text: opt_text(self.text) }
    }
}

/// What the entries of a table say.
pub open spec fn field_views(fields: Seq<ManifestField>) -> Seq<FieldView> {
    fields.map_values(|field: ManifestField| field@)
}

impl View for ManifestEntry {
    type V = EntryView;

    open spec fn view(&self) -> EntryView {
        EntryView {
            key: self.key@,
            fields: match self.fields {
                Some(fields) => Some(field_views(fields@)),
                None => None,
            },
        }
    }
}

/// What the entries at the top say.
pub open spec fn entry_views(entries: Seq<ManifestEntry>) -> Seq<EntryView> {
    entries.map_values(|entry: ManifestEntry| entry@)
}

/// What reading a document comes to.
pub open spec fn document_view(document: Result<Vec<ManifestEntry>, String>) -> Result<
    Seq<EntryView>,
    Seq<char>,
> {
    match document {
        Ok(entries) => Ok(entry_views(entries@)),
        Err(details) => Err(details@),
    }
}

/// The entries of the document that a text is, or why it is none.
pub uninterp spec fn document_of(text: Seq<char>) -> Result<Seq<EntryView>, Seq<char>>;

/// `toml::from_str`, `Value::as_table` and `Value::as_str` of `toml`: the entries
/// at the top of the document that the text is, with the entries of the tables
/// among them, or the parser's message. They depend on the text alone.
#[verifier::external_body]
fn parse_document(text: &str) -> (r: Result<Vec<ManifestEntry>, String>)
    ensures
        document_view(r) == document_of(text@),
{
    let value: Value = toml::from_str(text).map_err(|error: toml::de::Error| error.to_string())?;
    let field = |(key, value): (&String, &Value)| ManifestField {
        key: key.clone(),
        text: value.as_str().map(|text| text.to_string()),
    };
    let entry = |(key, value): (&String, &Value)| ManifestEntry {
        key: key.clone(),
        fields: value.as_table().map(|table| table.iter().map(field).collect()),
    };
    Ok(value.as_table().into_iter().flat_map(|top| top.iter().map(entry)).collect())
}

/// The document has an entry with the key at its top.
pub open spec fn has_entry(document: Seq<EntryView>, key: Seq<char>) -> bool {
    exists|i: int| 0 <= i < document.len() && (#[trigger] document[i]).key == key
}

/// The first entry with the key from the `i`th on.
pub open spec fn entry_from(document: Seq<EntryView>, key: Seq<char>, i: int) -> Option<EntryView>
    decreases document.len() - i,
{
    if i < 0 || i >= document.len() {
        None
    } else if document[i].key == key {
        Some(document[i])
    } else {
        entry_from(document, key, i + 1)
    }
}

/// The first entry of a table with the key from the `i`th on.
pub open spec fn field_from(fields: Seq<FieldView>, key: Seq<char>, i: int) -> Option<FieldView>
    decreases fields.len() - i,
{
    if i < 0 || i >= fields.len() {
        None
    } else if fields[i].key == key {
        Some(fields[i])
    } else {
        field_from(fields, key, i + 1)
    }
}

/// The text at the key of a table at the top of a document.
pub open spec fn text_in(document: Seq<EntryView>, table: Seq<char>, key: Seq<char>) -> Option<
    Seq<char>,
> {
    match entry_from(document, table, 0) {
        Some(EntryView { fields: Some(fields), .. }) => match field_from(fields, key, 0) {
            Some(field) => field.text,
            None => None,
        },
        _ => None,
    }
}

/// The first entry with the key.
fn find_entry<'a>(entries: &'a Vec<ManifestEntry>, key: &str) -> (r: Option<&'a ManifestEntry>)
    ensures
        match r {
            Some(entry) => entry_from(entry_views(entries@), key@, 0) == Some(entry@),
            None => entry_from(entry_views(entries@), key@, 0) is None,
        },
        r is Some <==> has_entry(entry_views(entries@), key@),
{
    let ghost views = entry_views(entries@);
    let mut i: usize = 0;
    while i < entries.len()
        invariant
            views == entry_views(entries@),
            i <= entries@.len(),
            entry_from(views, key@, 0) == entry_from(views, key@, i as int),
            forall|k: int| 0 <= k < i ==> (#[trigger] views[k]).key != key@,
        decreases entries.len() - i,
    {
        let entry = &entries[i];
        assert(views[i as int] == entry@);
        if str_eq(entry.key.as_str(), key) {
            return Some(entry);
        }
        i += 1;
    }
    None
}

/// The first entry of a table with the key.
fn find_field<'a>(fields: &'a Vec<ManifestField>, key: &str) -> (r: Option<&'a ManifestField>)
    ensures
        match r {
            Some(field) => field_from(field_views(fields@), key@, 0) == Some(field@),
            None => field_from(field_views(fields@), key@, 0) is None,
        },
{
    let ghost views = field_views(fields@);
    let mut i: usize = 0;
    while i < fields.len()
        invariant
            views == field_views(fields@),
            i <= fields@.len(),
            field_from(views, key@, 0) == field_from(views, key@, i as int),
        decreases fields.len() - i,
    {
        let field = &fields[i];
        assert(views[i as int] == field@);
        if str_eq(field.key.as_str(), key) {
            return Some(field);
        }
        i += 1;
    }
    None
}

/// The error for a manifest that cannot be read.
pub fn manifest_error(manifest: &str, details: &str) -> (r: RaHostInitError)
    ensures
        match r {
            RaHostInitError::WorkspaceLoad { manifest: path, details: text } => path@ == manifest@
                && text@ == details@,
            _ => false,
        },
{
    RaHostInitError::WorkspaceLoad { manifest: owned(manifest), details: owned(details) }
}

/// The error is that of a manifest which cannot be read.
pub open spec fn is_manifest_error(
    error: RaHostInitError,
    manifest: Seq<char>,
    details: Seq<char>,
) -> bool {
    match error {
        RaHostInitError::WorkspaceLoad { manifest: path, details: text } => path@ == manifest
            && text@ == details,
        _ => false,
    }
}

/// Whether a manifest is that of a workspace, given its document.
pub fn declares_workspace_with(
    manifest: &str,
    document: Result<Vec<ManifestEntry>, String>,
) -> (r: Result<bool, RaHostInitError>)
    ensures
        match (document_view(document), r) {
            (Ok(entries), Ok(declares)) => declares == has_entry(entries, "workspace"@),
            (Err(details), Err(error)) => is_manifest_error(error, manifest@, details),
            _ => false,
        },
{
    match document {
        Ok(entries) => Ok(find_entry(&entries, "workspace").is_some()),
        Err(details) => Err(manifest_error(manifest, details.as_str())),
    }
}

/// Whether a manifest with the text is that of a workspace.
pub fn manifest_declares_workspace(manifest: &str, text: &str) -> (r: Result<bool, RaHostInitError>)
    ensures
        match (document_of(text@), r) {
            (Ok(entries), Ok(declares)) => declares == has_entry(entries, "workspace"@),
            (Err(details), Err(error)) => is_manifest_error(error, manifest@, details),
            _ => false,
        },
{
    declares_workspace_with(manifest, parse_document(text))
}

/// The workspace that the package of a manifest names, given its document.
pub fn workspace_override_with(
    manifest: &str,
    document: Result<Vec<ManifestEntry>, String>,
) -> (r: Result<Option<String>, RaHostInitError>)
    ensures
        match (document_view(document), r) {
            (Ok(entries), Ok(named)) => opt_text(named) == text_in(
                entries,
                "package"@,
                "workspace"@,
            ),
            (Err(details), Err(error)) => is_manifest_error(error, manifest@, details),
            _ => false,
        },
{
    let entries = match document {
        Ok(entries) => entries,
        Err(details) => {
            return Err(manifest_error(manifest, details.as_str()));
        },
    };
    let fields = match find_entry(&entries, "package") {
        Some(entry) => match &entry.fields {
            Some(fields) => fields,
            None => {
                return Ok(None);
            },
        },
        None => {
            return Ok(None);
        },
    };
    match find_field(fields, "workspace") {
        Some(field) => match &field.text {
            Some(text) => Ok(Some(owned(text.as_str()))),
            None => Ok(None),
        },
        None => Ok(None),
    }
}

/// The workspace that the package of a manifest with the text names.
pub fn package_workspace_override(manifest: &str, text: &str) -> (r: Result<
    Option<String>,
    RaHostInitError,
>)
    ensures
        match (document_of(text@), r) {
            (Ok(entries), Ok(named)) => opt_text(named) == text_in(
                entries,
                "package"@,
                "workspace"@,
            ),
            (Err(details), Err(error)) => is_manifest_error(error, manifest@, details),
            _ => false,
        },
{
    workspace_override_with(manifest, parse_document(text))
}

/// A directory around a manifest that has a manifest of its own.
pub struct RootCandidate {
    pub dir: String,
    pub manifest: String,
    /// The text of the directory's manifest, or why it cannot be read.
    pub text: Result<String, String>,
}

/// Where the root of a workspace lies.
#[derive(Debug, Clone, PartialEq, Eq)]
pub enum WorkspaceRoot {
    /// At a path that the package names, seen from the manifest's directory.
    Named(String),
    /// At a directory around the package whose manifest is that of a workspace.
    Declared { dir: String, manifest: String },
    /// At the package's own directory: no directory around it is that of a
    /// workspace.
    Own(String),
}

/// What decides about the root.
pub enum RootView {
    /// The package names the root.
    Named(Seq<char>),
    /// The directory is the root by its manifest.
    Declared { dir: Seq<char>, manifest: Seq<char> },
    /// The package's own directory is the root.
    Own(Seq<char>),
    /// A manifest cannot be read.
    Unreadable { manifest: Seq<char>, details: Seq<char> },
}

/// What the directories from `i` on, the nearest first, decide about the root:
/// the first whose manifest is that of a workspace, else the given directory.
pub open spec fn root_from(candidates: Seq<RootCandidate>, manifest_dir: Seq<char>, i: int) -> RootView
    decreases candidates.len() - i,
{
    if i < 0 || i >= candidates.len() {
        RootView::Own(manifest_dir)
    } else {
        let here = candidates[i];
        match here.text {
            Err(details) => RootView::Unreadable { manifest: here.manifest@, details: details@ },
            Ok(text) => match document_of(text@) {
                Err(details) => RootView::Unreadable { manifest: here.manifest@, details },
                Ok(entries) => if has_entry(entries, "workspace"@) {
                    RootView::Declared { dir: here.dir@, manifest: here.manifest@ }
                } else {
                    root_from(candidates, manifest_dir, i + 1)
                },
            },
        }
    }
}

/// The outcome is the one that was decided.
pub open spec fn is_root(
    decided: RootView,
    outcome: Result<WorkspaceRoot, RaHostInitError>,
) -> bool {
    match (decided, outcome) {
        (RootView::Named(path), Ok(WorkspaceRoot::Named(root))) => root@ == path,
        (
            RootView::Declared { dir, manifest },
            Ok(WorkspaceRoot::Declared { dir: root, manifest: own }),
        ) => root@ == dir && own@ == manifest,
        (RootView::Own(dir), Ok(WorkspaceRoot::Own(root))) => root@ == dir,
        (RootView::Unreadable { manifest, details }, Err(error)) => is_manifest_error(
            error,
            manifest,
            details,
        ),
        _ => false,
    }
}

/// The nearest of some directories whose manifest is that of a workspace, else
/// the given directory.
fn declared_root(candidates: &Vec<RootCandidate>, manifest_dir: &str) -> (r: Result<
    WorkspaceRoot,
    RaHostInitError,
>)
    ensures
        is_root(root_from(candidates@, manifest_dir@, 0), r),
{
    let mut i: usize = 0;
    while i < candidates.len()
        invariant
            i <= candidates@.len(),
            root_from(candidates@, manifest_dir@, 0) == root_from(
                candidates@,
                manifest_dir@,
                i as int,
            ),
        decreases candidates.len() - i,
    {
        let here = &candidates[i];
        match &here.text {
            Err(details) => {
                return Err(manifest_error(here.manifest.as_str(), details.as_str()));
            },
            Ok(text) => {
                match manifest_declares_workspace(here.manifest.as_str(), text.as_str()) {
                    Err(error) => {
                        return Err(error);
                    },
                    Ok(declares) => {
                        if declares {
                            return Ok(
                                WorkspaceRoot::Declared {
                                    dir: owned(here.dir.as_str()),
                                    manifest: owned(here.manifest.as_str()),
                                },
                            );
                        }
                    },
                }
            },
        }
        i += 1;
    }
    Ok(WorkspaceRoot::Own(owned(manifest_dir)))
}

/// What a manifest and the directories around it decide about the root: the path
/// that its package names goes first.
pub open spec fn root_of(own: RootCandidate, candidates: Seq<RootCandidate>) -> RootView {
    match own.text {
        Err(details) => RootView::Unreadable { manifest: own.manifest@, details: details@ },
        Ok(text) => match document_of(text@) {
            Err(details) => RootView::Unreadable { manifest: own.manifest@, details },
            Ok(entries) => match text_in(entries, "package"@, "workspace"@) {
                Some(path) => RootView::Named(path),
                None => root_from(candidates, own.dir@, 0),
            },
        },
    }
}

/// The root of the workspace that a manifest belongs to. The candidates are the
/// directories around the manifest that have a manifest, the nearest first.
pub fn true_workspace_root(own: &RootCandidate, candidates: &Vec<RootCandidate>) -> (r: Result<
    WorkspaceRoot,
    RaHostInitError,
>)
    ensures
        is_root(root_of(*own, candidates@), r),
{
    match &own.text {
        Err(details) => Err(manifest_error(own.manifest.as_str(), details.as_str())),
        Ok(text) => match package_workspace_override(own.manifest.as_str(), text.as_str()) {
            Err(error) => Err(error),
            Ok(Some(path)) => Ok(WorkspaceRoot::Named(path)),
            Ok(None) => declared_root(candidates, own.dir.as_str()),
        },
    }
}

} // verus!
