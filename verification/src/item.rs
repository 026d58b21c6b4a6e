//! The unit of work: one file or symbolic link to copy.

use vstd::prelude::*;

verus! {

/// How an item reaches its destination.
#[derive(Debug, Clone, Copy, PartialEq, Eq, Structural)]
pub enum ItemKind {
    /// Its bytes are streamed to a new file.
    File,
    /// A link with the same target is made.
    Symlink,
}

/// One file or symbolic link, with the path it comes from and the path it
/// goes to.
#[derive(Debug, PartialEq, Eq)]
pub struct CopyItem {
    pub source: String,
    pub dest: String,
    pub kind: ItemKind,
}

/// A `CopyItem` with its paths as sequences of characters.
pub struct ItemView {
    pub source: Seq<char>,
    pub dest: Seq<char>,
    pub kind: ItemKind,
}

impl View for CopyItem {
    type V = ItemView;

    open spec fn view(&self) -> ItemView {
        ItemView { source: self.source@, dest: self.dest@, kind: self.kind }
    }
}

impl Clone for CopyItem {
    fn clone(&self) -> (copy: Self)
        ensures
            copy@ == self@,
    {
        CopyItem { source: self.source.clone(), dest: self.dest.clone(), kind: self.kind }
    }
}

/// The views of a sequence of items, in the same order.
pub open spec fn item_views(items: Seq<CopyItem>) -> Seq<ItemView> {
    items.map_values(|item: CopyItem| item@)
}

} // verus!
