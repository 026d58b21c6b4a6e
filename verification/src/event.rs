//! The lifecycle events that copy workers report to the display.

use vstd::prelude::*;

verus! {

/// One report about the item that a tracking identifier stands for.
#[derive(Debug, Clone, PartialEq, Eq)]
pub enum ProgressUpdate {
    /// Copying of the item at `path`, `size` bytes long, has started.
    NewFile { path: String, size: u64, id: usize },
    /// `bytes_copied` bytes of the item have reached the destination so far.
    Progress { id: usize, bytes_copied: u64 },
    /// The item is done, whether or not all of it was copied.
    Finished { id: usize },
}

/// A `ProgressUpdate` with its path as a sequence of characters.
pub enum UpdateView {
    NewFile { path: Seq<char>, size: u64, id: usize },
    Progress { id: usize, bytes_copied: u64 },
    Finished { id: usize },
}

impl View for ProgressUpdate {
    type V = UpdateView;

    open spec fn view(&self) -> UpdateView {
        match *self {
            ProgressUpdate::NewFile { path, size, id } => UpdateView::NewFile {
                path: path@,
                size,
                id,
            },
            ProgressUpdate::Progress { id, bytes_copied } => UpdateView::Progress {
                id,
                bytes_copied,
            },
            ProgressUpdate::Finished { id } => UpdateView::Finished { id },
        }
    }
}

impl UpdateView {
    /// The tracking identifier that the update speaks of.
    pub open spec fn id(self) -> usize {
        match self {
            UpdateView::NewFile { id, .. } => id,
            UpdateView::Progress { id, .. } => id,
            UpdateView::Finished { id } => id,
        }
    }
}

/// The views of a sequence of updates, in the same order.
pub open spec fn update_views(updates: Seq<ProgressUpdate>) -> Seq<UpdateView> {
    updates.map_values(|u: ProgressUpdate| u@)
}

} // verus!
