//! Bringing a session up to date with the files on disk.
//!
//! A synchronisation is a walk through phases. The session performs the action
//! that a step asks for and hands the outcome back as the next event.

use vstd::prelude::*;

verus! {

/// Where a synchronisation stands.
#[derive(Debug, Clone, Copy, PartialEq, Eq, Structural)]
pub enum SyncPhase {
    /// The inputs of build scripts are compared.
    Inputs,
    /// The watcher is drained.
    Drain,
    /// The next file of the watcher's batch is looked at.
    Watched,
    /// The contents of a watched file are stored.
    WatchedStore,
    /// The files whose change loads the workspace again are compared.
    Sensitive,
    /// The watched directories are compared.
    Dirs,
    /// The Rust files are compared.
    Files,
    /// The next changed Rust file is looked at.
    Changed,
    /// The workspace is loaded again.
    Reload,
    Finished,
    Failed,
}

/// A synchronisation.
#[derive(Debug, Clone, Copy, PartialEq, Eq, Structural)]
pub struct SyncState {
    pub phase: SyncPhase,
    /// The contents of a file have changed.
    pub saw_change: bool,
    /// The watcher is ready and settled.
    pub quiet: bool,
    /// How often the workspace has been loaded again.
    pub workspace_epoch: u64,
    /// How often its contents have changed.
    pub content_revision: u64,
}

/// Whether the session knows a file.
#[derive(Debug, Clone, Copy, PartialEq, Eq, Structural)]
pub enum FileStanding {
    Unknown,
    Excluded,
    Known,
}

/// What became of an action.
#[derive(Debug, Clone, Copy, PartialEq, Eq, Structural)]
pub enum SyncEvent {
    /// Whether the inputs of build scripts have changed.
    InputsCompared { changed: bool },
    /// Whether the watcher has changed files, and whether it is ready and
    /// settled.
    Drained { any: bool, quiet: bool },
    /// A file of the batch, and whether its change loads the workspace again.
    WatchedFile { requires_reload: bool },
    /// There is no more file in the batch.
    WatchedEnd,
    /// The contents of a watched file were stored.
    WatchedStored {
        changed: bool,
        standing: FileStanding,
        has_contents: bool,
        is_text: bool,
        is_tracked: bool,
        is_rust: bool,
    },
    SensitiveCompared { changed: bool },
    DirsCompared { changed: bool },
    FilesCompared { changed: bool },
    /// The contents of a changed Rust file were stored.
    ChangedStored {
        changed: bool,
        requires_reload: bool,
        standing: FileStanding,
        is_text: bool,
    },
    /// There is no more changed Rust file.
    ChangedEnd,
    /// The workspace was loaded again.
    Reloaded,
    /// Something could not be read or loaded.
    Broken,
}

/// What the session does next.
#[derive(Debug, Clone, Copy, PartialEq, Eq, Structural)]
pub enum SyncAction {
    Drain,
    NextWatched,
    StoreWatched,
    /// Queue the text of the watched file, and track the file if told so.
    QueueWatched { track: bool },
    CompareSensitive,
    CompareDirs,
    CompareFiles,
    NextChanged,
    /// Queue the text of the changed file.
    QueueChanged,
    /// Drop what is queued and load the workspace again.
    Reload,
    /// Apply what is queued.
    Commit,
    Finish,
    Fail,
}

/// The number after another, the greatest staying.
pub open spec fn after(count: u64) -> u64 {
    if count == u64::MAX {
        count
    } else {
        (count + 1) as u64
    }
}

/// A step to a phase.
pub open spec fn to(state: SyncState, phase: SyncPhase, action: SyncAction) -> (
    SyncState,
    SyncAction,
) {
    (SyncState { phase, ..state }, action)
}

/// The end of a list of files: what is queued is applied.
pub open spec fn ended(state: SyncState) -> (SyncState, SyncAction) {
    if state.saw_change {
        (
            SyncState {
                phase: SyncPhase::Finished,
                content_revision: after(state.content_revision),
                ..state
            },
            SyncAction::Commit,
        )
    } else {
        to(state, SyncPhase::Finished, SyncAction::Finish)
    }
}

/// What a stored watched file leads to.
pub open spec fn watched_stored(
    state: SyncState,
    changed: bool,
    standing: FileStanding,
    has_contents: bool,
    is_text: bool,
    track: bool,
) -> (SyncState, SyncAction) {
    if !changed {
        to(state, SyncPhase::Watched, SyncAction::NextWatched)
    } else if !(standing is Known) || !has_contents {
        to(state, SyncPhase::Reload, SyncAction::Reload)
    } else if !is_text {
        to(state, SyncPhase::Failed, SyncAction::Fail)
    } else {
        (
            SyncState { phase: SyncPhase::Watched, saw_change: true, ..state },
            SyncAction::QueueWatched { track },
        )
    }
}

/// What a stored changed file leads to.
pub open spec fn changed_stored(
    state: SyncState,
    changed: bool,
    requires_reload: bool,
    standing: FileStanding,
    is_text: bool,
) -> (SyncState, SyncAction) {
    if !changed {
        to(state, SyncPhase::Changed, SyncAction::NextChanged)
    } else if requires_reload || !(standing is Known) {
        to(state, SyncPhase::Reload, SyncAction::Reload)
    } else if !is_text {
        to(state, SyncPhase::Failed, SyncAction::Fail)
    } else {
        (
            SyncState { phase: SyncPhase::Changed, saw_change: true, ..state },
            SyncAction::QueueChanged,
        )
    }
}

/// What an event leads to.
pub open spec fn next(state: SyncState, event: SyncEvent) -> (SyncState, SyncAction) {
    match (state.phase, event) {
        (SyncPhase::Inputs, SyncEvent::InputsCompared { changed }) => if changed {
            to(state, SyncPhase::Reload, SyncAction::Reload)
        } else {
            to(state, SyncPhase::Drain, SyncAction::Drain)
        },
        (SyncPhase::Drain, SyncEvent::Drained { any, quiet }) => {
            let seen = SyncState { quiet, ..state };
            if any {
                to(seen, SyncPhase::Watched, SyncAction::NextWatched)
            } else {
                to(seen, SyncPhase::Sensitive, SyncAction::CompareSensitive)
            }
        },
        (SyncPhase::Watched, SyncEvent::WatchedFile { requires_reload }) => if requires_reload {
            to(state, SyncPhase::Reload, SyncAction::Reload)
        } else {
            to(state, SyncPhase::WatchedStore, SyncAction::StoreWatched)
        },
        (SyncPhase::Watched, SyncEvent::WatchedEnd) => ended(state),
        (
            SyncPhase::WatchedStore,
            SyncEvent::WatchedStored {
                changed,
                standing,
                has_contents,
                is_text,
                is_tracked,
                is_rust,
            },
        ) => watched_stored(
            state,
            changed,
            standing,
            has_contents,
            is_text,
            is_tracked || is_rust,
        ),
        (SyncPhase::Sensitive, SyncEvent::SensitiveCompared { changed }) => if changed {
            to(state, SyncPhase::Reload, SyncAction::Reload)
        } else if state.quiet {
            to(state, SyncPhase::Finished, SyncAction::Finish)
        } else {
            to(state, SyncPhase::Dirs, SyncAction::CompareDirs)
        },
        (SyncPhase::Dirs, SyncEvent::DirsCompared { changed }) => if changed {
            to(state, SyncPhase::Reload, SyncAction::Reload)
        } else {
            to(state, SyncPhase::Files, SyncAction::CompareFiles)
        },
        (SyncPhase::Files, SyncEvent::FilesCompared { changed }) => if changed {
            to(state, SyncPhase::Changed, SyncAction::NextChanged)
        } else {
            to(state, SyncPhase::Finished, SyncAction::Finish)
        },
        (
            SyncPhase::Changed,
            SyncEvent::ChangedStored { changed, requires_reload, standing, is_text },
        ) => changed_stored(state, changed, requires_reload, standing, is_text),
        (SyncPhase::Changed, SyncEvent::ChangedEnd) => ended(state),
        (SyncPhase::Reload, SyncEvent::Reloaded) => (
            SyncState {
                phase: SyncPhase::Finished,
                workspace_epoch: after(state.workspace_epoch),
                content_revision: after(state.content_revision),
                ..state
            },
            SyncAction::Finish,
        ),
        (SyncPhase::Finished, _) => (state, SyncAction::Finish),
        _ => to(state, SyncPhase::Failed, SyncAction::Fail),
    }
}

/// A synchronisation that is about to begin.
pub open spec fn beginning(workspace_epoch: u64, content_revision: u64) -> SyncState {
    SyncState {
        phase: SyncPhase::Inputs,
        saw_change: false,
        quiet: false,
        workspace_epoch,
        content_revision,
    }
}

impl SyncState {
    /// A synchronisation that is about to begin: the inputs of build scripts are
    /// to be compared first.
    pub fn begin(workspace_epoch: u64, content_revision: u64) -> (r: SyncState)
        ensures
            r == beginning(workspace_epoch, content_revision),
    {
        SyncState {
            phase: SyncPhase::Inputs,
            saw_change: false,
            quiet: false,
            workspace_epoch,
            content_revision,
        }
    }

    fn goes_to(self, phase: SyncPhase, action: SyncAction) -> (r: (SyncState, SyncAction))
        ensures
            r == to(self, phase, action),
    {
        let mut state = self;
        state.phase = phase;
        (state, action)
    }

    fn ends(self) -> (r: (SyncState, SyncAction))
        ensures
            r == ended(self),
    {
        if self.saw_change {
            let mut state = self;
            state.phase = SyncPhase::Finished;
            state.content_revision = self.content_revision.saturating_add(1);
            (state, SyncAction::Commit)
        } else {
            self.goes_to(SyncPhase::Finished, SyncAction::Finish)
        }
    }

    /// What an event leads to.
    pub fn step(self, event: SyncEvent) -> (r: (SyncState, SyncAction))
        ensures
            r == next(self, event),
    {
        match (self.phase, event) {
            (SyncPhase::Inputs, SyncEvent::InputsCompared { changed }) => if changed {
                self.goes_to(SyncPhase::Reload, SyncAction::Reload)
            } else {
                self.goes_to(SyncPhase::Drain, SyncAction::Drain)
            },
            (SyncPhase::Drain, SyncEvent::Drained { any, quiet }) => {
                let mut seen = self;
                seen.quiet = quiet;
                if any {
                    seen.goes_to(SyncPhase::Watched, SyncAction::NextWatched)
                } else {
                    seen.goes_to(SyncPhase::Sensitive, SyncAction::CompareSensitive)
                }
            },
            (SyncPhase::Watched, SyncEvent::WatchedFile { requires_reload }) => {
                if requires_reload {
                    self.goes_to(SyncPhase::Reload, SyncAction::Reload)
                } else {
                    self.goes_to(SyncPhase::WatchedStore, SyncAction::StoreWatched)
                }
            },
            (SyncPhase::Watched, SyncEvent::WatchedEnd) => self.ends(),
            (
                SyncPhase::WatchedStore,
                SyncEvent::WatchedStored {
                    changed,
                    standing,
                    has_contents,
                    is_text,
                    is_tracked,
                    is_rust,
                },
            ) => {
                if !changed {
                    self.goes_to(SyncPhase::Watched, SyncAction::NextWatched)
                } else if standing != FileStanding::Known || !has_contents {
                    self.goes_to(SyncPhase::Reload, SyncAction::Reload)
                } else if !is_text {
                    self.goes_to(SyncPhase::Failed, SyncAction::Fail)
                } else {
                    let mut state = self;
                    state.phase = SyncPhase::Watched;
                    state.saw_change = true;
                    (state, SyncAction::QueueWatched { track: is_tracked || is_rust })
                }
            },
            (SyncPhase::Sensitive, SyncEvent::SensitiveCompared { changed }) => if changed {
                self.goes_to(SyncPhase::Reload, SyncAction::Reload)
            } else if self.quiet {
                self.goes_to(SyncPhase::Finished, SyncAction::Finish)
            } else {
                self.goes_to(SyncPhase::Dirs, SyncAction::CompareDirs)
            },
            (SyncPhase::Dirs, SyncEvent::DirsCompared { changed }) => if changed {
                self.goes_to(SyncPhase::Reload, SyncAction::Reload)
            } else {
                self.goes_to(SyncPhase::Files, SyncAction::CompareFiles)
            },
            (SyncPhase::Files, SyncEvent::FilesCompared { changed }) => if changed {
                self.goes_to(SyncPhase::Changed, SyncAction::NextChanged)
            } else {
                self.goes_to(SyncPhase::Finished, SyncAction::Finish)
            },
            (
                SyncPhase::Changed,
                SyncEvent::ChangedStored { changed, requires_reload, standing, is_text },
            ) => {
                if !changed {
                    self.goes_to(SyncPhase::Changed, SyncAction::NextChanged)
                } else if requires_reload || standing != FileStanding::Known {
                    self.goes_to(SyncPhase::Reload, SyncAction::Reload)
                } else if !is_text {
                    self.goes_to(SyncPhase::Failed, SyncAction::Fail)
                } else {
                    let mut state = self;
                    state.phase = SyncPhase::Changed;
                    state.saw_change = true;
                    (state, SyncAction::QueueChanged)
                }
            },
            (SyncPhase::Changed, SyncEvent::ChangedEnd) => self.ends(),
            (SyncPhase::Reload, SyncEvent::Reloaded) => {
                let mut state = self;
                state.phase = SyncPhase::Finished;
                state.workspace_epoch = self.workspace_epoch.saturating_add(1);
                state.content_revision = self.content_revision.saturating_add(1);
                (state, SyncAction::Finish)
            },
            (SyncPhase::Finished, _) => (self, SyncAction::Finish),
            _ => self.goes_to(SyncPhase::Failed, SyncAction::Fail),
        }
    }
}

/// Where a synchronisation stands after events.
pub open spec fn after_events(state: SyncState, events: Seq<SyncEvent>) -> SyncState
    decreases events.len(),
{
    if events.len() == 0 {
        state
    } else {
        next(after_events(state, events.drop_last()), events.last()).0
    }
}

/// Whatever happens, a synchronisation moves the counters at most once: not at
/// all, the revision alone for edits, or both for a load. As long as it is not
/// finished it has not moved them.
pub proof fn law_syncs_count_once(epoch: u64, revision: u64, events: Seq<SyncEvent>)
    ensures
        ({
            let end = after_events(beginning(epoch, revision), events);
            let kept = end.workspace_epoch == epoch && end.content_revision == revision;
            let edited = end.workspace_epoch == epoch && end.content_revision == after(revision);
            let loaded = end.workspace_epoch == after(epoch) && end.content_revision == after(
                revision,
            );
            &&& kept || edited || loaded
            &&& !(end.phase is Finished) ==> kept
        }),
    decreases events.len(),
{
    if events.len() > 0 {
        law_syncs_count_once(epoch, revision, events.drop_last());
    }
}

/// The workspace epoch advances only by loading the workspace again.
pub proof fn law_edits_keep_the_epoch(epoch: u64, revision: u64, events: Seq<SyncEvent>)
    requires
        !events.contains(SyncEvent::Reloaded),
    ensures
        after_events(beginning(epoch, revision), events).workspace_epoch == epoch,
    decreases events.len(),
{
    if events.len() > 0 {
        let before = events.drop_last();
        assert forall|i: int| 0 <= i < before.len() implies before[i] != SyncEvent::Reloaded by {
            assert(before[i] == events[i]);
        }
        assert(events.last() != SyncEvent::Reloaded) by {
            assert(events[events.len() - 1] == events.last());
        }
        law_edits_keep_the_epoch(epoch, revision, before);
    }
}

/// A finished synchronisation stays as it is.
pub proof fn law_finished_syncs_stay(state: SyncState, event: SyncEvent)
    requires
        state.phase is Finished,
    ensures
        next(state, event).0 == state,
{
}

/// A synchronisation that has failed does not finish.
pub proof fn law_failed_syncs_do_not_finish(state: SyncState, event: SyncEvent)
    requires
        state.phase is Failed,
    ensures
        next(state, event).0.phase is Failed,
{
}

/// How many workers fill the caches: the wanted number, else as many as the
/// machine runs at once, but at most four.
pub fn prime_cache_threads(wanted: Option<usize>, available: Option<usize>) -> (r: usize)
    ensures
        r == match wanted {
            Some(count) => if count > 0 {
                count
            } else {
                default_threads(available)
            },
            None => default_threads(available),
        },
{
    match wanted {
        Some(count) => {
            if count > 0 {
                return count;
            }
        },
        None => {},
    }
    match available {
        Some(count) => if count < 4 {
            count
        } else {
            4
        },
        None => 1,
    }
}

/// How many workers fill the caches where no number is wanted.
pub open spec fn default_threads(available: Option<usize>) -> usize {
    match available {
        Some(count) => if count < 4 {
            count
        } else {
            4
        },
        None => 1,
    }
}

} // verus!
