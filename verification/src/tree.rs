//! A snapshot of the source: what was found at the source path and below it.

use vstd::prelude::*;

verus! {

/// What was found at a path.
#[derive(Debug, PartialEq, Eq)]
pub enum Node {
    /// A regular file.
    File,
    /// A symbolic link, whatever it points at.
    Symlink,
    /// A directory with what it holds, in the order in which it was listed.
    Directory(Vec<Entry>),
    /// Anything else: a socket, a device, a pipe.
    Other,
}

/// One name in a directory and what was found under it.
#[derive(Debug, PartialEq, Eq)]
pub struct Entry {
    pub name: String,
    pub node: Node,
}

/// A `Node` with the names below it as sequences of characters.
pub enum NodeView {
    File,
    Symlink,
    Directory(Seq<EntryView>),
    Other,
}

/// An `Entry` with its name as a sequence of characters.
pub struct EntryView {
    pub name: Seq<char>,
    pub node: NodeView,
}

impl View for Node {
    type V = NodeView;

    open spec fn view(&self) -> NodeView
        decreases self,
    {
        match self {
            Node::File => NodeView::File,
            Node::Symlink => NodeView::Symlink,
            Node::Directory(entries) => NodeView::Directory(
                Seq::new(
                    entries.len() as nat,
                    |i: int|
                        if 0 <= i < entries.len() {
                            EntryView { name: entries[i].name@, node: entries[i].node.view() }
                        } else {
                            arbitrary()
                        },
                ),
            ),
            Node::Other => NodeView::Other,
        }
    }
}

impl View for Entry {
    type V = EntryView;

    open spec fn view(&self) -> EntryView {
        EntryView { name: self.name@, node: self.node@ }
    }
}

/// The views of a sequence of entries, in the same order.
pub open spec fn entry_views(entries: Seq<Entry>) -> Seq<EntryView> {
    entries.map_values(|e: Entry| e@)
}

/// A directory's view holds the views of its entries.
pub proof fn lemma_directory_view(entries: Vec<Entry>)
    ensures
        Node::Directory(entries)@ == NodeView::Directory(entry_views(entries@)),
{
    assert(Node::Directory(entries)@->Directory_0 =~= entry_views(entries@));
}

} // verus!
