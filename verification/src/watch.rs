//! Which file-system changes are reported to notification clients, and as
//! what.

use vstd::prelude::*;

use crate::models::FileEvent;
use crate::text::{has_md_extension, is_md_name, is_temp_file_name, is_temp_name};

verus! {

/// The kind of a change the watcher reports.
#[derive(Debug, Clone, Copy, PartialEq, Eq, Structural)]
pub enum ChangeKind {
    Create,
    Modify,
    Remove,
    /// Any other kind (access, metadata-only events the watcher cannot
    /// classify, ...).
    Other,
}

/// Changes to a file of this name are reported: a Markdown file that is not
/// an editor's scratch file.
pub open spec fn watched_name(name: Seq<char>) -> bool {
    is_md_name(name) && !is_temp_name(name)
}

/// Whether changes to a file of this name are reported.
pub fn is_watched_file(name: &str) -> (r: bool)
    ensures
        r == watched_name(name@),
{
    has_md_extension(name) && !is_temp_file_name(name)
}

/// The event reported for a change of kind `kind` to the file named `name`
/// at `path`, whose modification time is `mtime`.
pub open spec fn change_event_of(name: Seq<char>, path: String, kind: ChangeKind, mtime: i64) -> Option<FileEvent> {
    if !watched_name(name) {
        None
    } else {
        match kind {
            ChangeKind::Create => Some(FileEvent::Created { path, mtime }),
            ChangeKind::Modify => Some(FileEvent::Modified { path, mtime }),
            ChangeKind::Remove => Some(FileEvent::Deleted { path }),
            ChangeKind::Other => None,
        }
    }
}

/// The event to report for a change of kind `kind` to the file named `name`
/// at `path`, whose modification time is `mtime`; `None` when the change is
/// not reported.
pub fn change_event(name: &str, path: String, kind: ChangeKind, mtime: i64) -> (ev: Option<FileEvent>)
    ensures
        ev == change_event_of(name@, path, kind, mtime),
        ev is Some <==> is_md_name(name@) && !is_temp_name(name@) && kind != ChangeKind::Other,
        ev matches Some(FileEvent::Created { path: p, mtime: t }) ==> kind == ChangeKind::Create
            && p == path && t == mtime,
        ev matches Some(FileEvent::Modified { path: p, mtime: t }) ==> kind == ChangeKind::Modify
            && p == path && t == mtime,
        ev matches Some(FileEvent::Deleted { path: p }) ==> kind == ChangeKind::Remove && p == path,
{
    if !is_watched_file(name) {
        return None;
    }
    match kind {
        ChangeKind::Create => Some(FileEvent::Created { path, mtime }),
        ChangeKind::Modify => Some(FileEvent::Modified { path, mtime }),
        ChangeKind::Remove => Some(FileEvent::Deleted { path }),
        ChangeKind::Other => None,
    }
}

/// Only changes to Markdown files are ever reported, and never changes to an
/// editor's scratch files.
pub proof fn lemma_only_markdown_changes_reported(name: Seq<char>, path: String, kind: ChangeKind, mtime: i64)
    ensures
        change_event_of(name, path, kind, mtime) is Some ==> is_md_name(name) && !is_temp_name(name),
{
}

/// A change is reported exactly for a Markdown file that is not a scratch
/// file, and for a creation, a modification or a removal; the event is of
/// the change's kind and carries the path and modification time it was
/// given.
pub proof fn lemma_change_event_carries_its_inputs(
    name: Seq<char>,
    path: String,
    kind: ChangeKind,
    mtime: i64,
)
    ensures
        change_event_of(name, path, kind, mtime) is Some <==> is_md_name(name) && !is_temp_name(name)
            && kind != ChangeKind::Other,
        change_event_of(name, path, kind, mtime) matches Some(FileEvent::Created { path: p, mtime: t })
            ==> kind == ChangeKind::Create && p == path && t == mtime,
        change_event_of(name, path, kind, mtime) matches Some(FileEvent::Modified { path: p, mtime: t })
            ==> kind == ChangeKind::Modify && p == path && t == mtime,
        change_event_of(name, path, kind, mtime) matches Some(FileEvent::Deleted { path: p })
            ==> kind == ChangeKind::Remove && p == path,
{
}

} // verus!
