//! Pure decisions of the version-control commands: how a status flag set is
//! labelled for the client, and what discarding a file means for each kind
//! of change. The repository operations themselves are I/O and stay with
//! the caller.
use vstd::prelude::*;

verus! {

/// One file's status, as listed to the client.
pub struct GitFileStatus {
    pub path: String,
    pub status: String,
}

/// The current branch, as reported to the client.
pub struct BranchInfo {
    pub name: String,
    pub ahead: u32,
    pub behind: u32,
}

/// The status flags of one listed file, as plain values.
#[derive(Clone, Copy, Debug, PartialEq, Eq, Structural)]
pub struct StatusFlags {
    pub is_ignored: bool,
    pub is_index_new: bool,
    pub is_index_modified: bool,
    pub is_wt_modified: bool,
    pub is_index_deleted: bool,
    pub is_wt_deleted: bool,
    pub is_wt_new: bool,
}

/// The label a flag set is shown under, when it is shown at all: ignored,
/// added, modified, deleted, or untracked — decided in that order.
pub open spec fn status_label_spec(f: StatusFlags) -> Option<Seq<char>> {
    if f.is_ignored {
        Some("ignored"@)
    } else if f.is_index_new {
        Some("added"@)
    } else if f.is_index_modified || f.is_wt_modified {
        Some("modified"@)
    } else if f.is_index_deleted || f.is_wt_deleted {
        Some("deleted"@)
    } else if f.is_wt_new {
        Some("untracked"@)
    } else {
        None
    }
}

/// Labels one file's status flags; files with none of the listed states
/// are left out of the listing.
pub fn git_status_label(f: StatusFlags) -> (r: Option<String>)
    ensures
        match r {
            Some(label) => status_label_spec(f) == Some(label@),
            None => status_label_spec(f) is None,
        },
{
    if f.is_ignored {
        Some(String::from_str("ignored"))
    } else if f.is_index_new {
        Some(String::from_str("added"))
    } else if f.is_index_modified || f.is_wt_modified {
        Some(String::from_str("modified"))
    } else if f.is_index_deleted || f.is_wt_deleted {
        Some(String::from_str("deleted"))
    } else if f.is_wt_new {
        Some(String::from_str("untracked"))
    } else {
        None
    }
}

/// What discarding a file's changes does.
#[derive(Clone, Copy, Debug, PartialEq, Eq, Structural)]
pub enum DiscardAction {
    /// An untracked file is deleted from disk.
    DeleteUntracked,
    /// A staged new file is unstaged, then deleted from disk.
    UnstageAndDelete,
    /// A tracked modified or deleted file is restored from the last commit.
    RestoreFromHead,
}

/// Decides how a discard is carried out from the file's status.
pub fn discard_action(is_wt_new: bool, is_index_new: bool) -> (r: DiscardAction)
    ensures
        is_wt_new ==> r == DiscardAction::DeleteUntracked,
        !is_wt_new && is_index_new ==> r == DiscardAction::UnstageAndDelete,
        !is_wt_new && !is_index_new ==> r == DiscardAction::RestoreFromHead,
{
    if is_wt_new {
        DiscardAction::DeleteUntracked
    } else if is_index_new {
        DiscardAction::UnstageAndDelete
    } else {
        DiscardAction::RestoreFromHead
    }
}

} // verus!
