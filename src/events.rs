//! What a filesystem change means for the index.

use vstd::prelude::*;

verus! {

/// The kinds of filesystem change the index reacts to.
#[derive(Debug, Clone, Copy, PartialEq, Eq, Structural)]
pub enum FileEventKind {
    /// A file was created.
    CreateFile,
    /// A file's contents changed.
    ModifyData,
    /// A file was renamed or moved.
    ModifyName,
    /// A file was removed.
    RemoveFile,
    /// Anything else.
    Other,
}

/// What to do with one path of an event.
#[derive(Debug, Clone, Copy, PartialEq, Eq, Structural)]
pub enum FileAction {
    /// Load the file again and replace the path's entries.
    Reload,
    /// Drop the path's entries.
    Purge,
    /// Leave the index as it is.
    Ignore,
}

/// The action for one path of an event. A rename reloads the path when it
/// still exists and purges it when it does not.
pub fn plan_file_event(kind: FileEventKind, path_exists: bool) -> (r: FileAction)
    ensures
        (kind is CreateFile || kind is ModifyData) ==> r is Reload,
        kind is ModifyName ==> (if path_exists { r is Reload } else { r is Purge }),
        kind is RemoveFile ==> r is Purge,
        kind is Other ==> r is Ignore,
{
    match kind {
        FileEventKind::CreateFile | FileEventKind::ModifyData => FileAction::Reload,
        FileEventKind::ModifyName => if path_exists {
            FileAction::Reload
        } else {
            FileAction::Purge
        },
        FileEventKind::RemoveFile => FileAction::Purge,
        FileEventKind::Other => FileAction::Ignore,
    }
}

} // verus!
