//! The tree enumerator: from a snapshot of the source to the flat list of
//! items to copy and the directories that must exist before copying starts.

use vstd::prelude::*;
use crate::item::{item_views, CopyItem, ItemKind, ItemView};
use crate::path::{file_name, final_name, join, joined};
use crate::tree::{entry_views, lemma_directory_view, Entry, EntryView, Node, NodeView};

verus! {

/// What becomes of a symbolic link in the source.
#[derive(Debug, Clone, Copy, PartialEq, Eq, Structural)]
pub enum SymlinkPolicy {
    /// A link with the same target is made at the destination.
    Recreate,
    /// What the link points at is copied as a file. The snapshot does not
    /// look behind a link, so one that points at a directory is planned as
    /// a file too, and its copy fails when it is opened.
    Dereference,
    /// The link is left out.
    Skip,
}

/// Why a source cannot be enumerated.
#[derive(Debug, Clone, Copy, PartialEq, Eq, Structural)]
pub enum EnumerateError {
    /// Nothing was found at the source path.
    NotFound,
    /// The source is to go into a directory under its own name and has none:
    /// its path is empty, is the root, or ends in the two dots.
    NoFileName,
}

/// What is to be done for a source: the directories to create, each before
/// any directory below it, and the items to copy once they exist.
#[derive(Debug, PartialEq, Eq)]
pub struct CopyPlan {
    pub directories: Vec<String>,
    pub files: Vec<CopyItem>,
}

/// The views of a sequence of strings, in the same order.
pub open spec fn string_views(strings: Seq<String>) -> Seq<Seq<char>> {
    strings.map_values(|s: String| s@)
}

/// The items that one node gives: a file itself, a link what the policy
/// makes of it, a directory what its entries give, anything else nothing.
pub open spec fn files_of(
    node: NodeView,
    source: Seq<char>,
    dest: Seq<char>,
    policy: SymlinkPolicy,
) -> Seq<ItemView>
    decreases node,
{
    match node {
        NodeView::File => seq![ItemView { source, dest, kind: ItemKind::File }],
        NodeView::Symlink => match policy {
            SymlinkPolicy::Recreate => seq![ItemView { source, dest, kind: ItemKind::Symlink }],
            SymlinkPolicy::Dereference => seq![ItemView { source, dest, kind: ItemKind::File }],
            SymlinkPolicy::Skip => Seq::empty(),
        },
        NodeView::Directory(entries) => files_in(entries, source, dest, policy),
        NodeView::Other => Seq::empty(),
    }
}

/// The items that the entries of a directory give, in the order of the
/// entries, each with its name joined to the directory's two paths.
pub open spec fn files_in(
    entries: Seq<EntryView>,
    source: Seq<char>,
    dest: Seq<char>,
    policy: SymlinkPolicy,
) -> Seq<ItemView>
    decreases entries,
{
    if entries.len() == 0 {
        Seq::empty()
    } else {
        let last = entries.last();
        files_in(entries.drop_last(), source, dest, policy) + files_of(
            last.node,
            joined(source, last.name),
            joined(dest, last.name),
            policy,
        )
    }
}

/// The directories that one node asks for at the destination: for a
/// directory its own and then those of its entries, for anything else none.
pub open spec fn directories_of(node: NodeView, dest: Seq<char>) -> Seq<Seq<char>>
    decreases node,
{
    match node {
        NodeView::Directory(entries) => seq![dest] + directories_in(entries, dest),
        _ => Seq::empty(),
    }
}

/// The directories that the entries of a directory ask for, in the order
/// of the entries.
pub open spec fn directories_in(entries: Seq<EntryView>, dest: Seq<char>) -> Seq<Seq<char>>
    decreases entries,
{
    if entries.len() == 0 {
        Seq::empty()
    } else {
        let last = entries.last();
        directories_in(entries.drop_last(), dest) + directories_of(
            last.node,
            joined(dest, last.name),
        )
    }
}

/// Whether the source goes into the destination under its own name: it is
/// a file or a link, and the destination is a directory.
pub open spec fn goes_by_name(node: NodeView, destination_is_dir: bool) -> bool {
    (node is File || node is Symlink) && destination_is_dir
}

/// Where the source itself goes: a file or a link goes into the destination
/// under its own name where the destination is a directory; anything else
/// goes to the destination as it is.
pub open spec fn target(
    node: NodeView,
    source: Seq<char>,
    destination: Seq<char>,
    destination_is_dir: bool,
) -> Seq<char> {
    if goes_by_name(node, destination_is_dir) && final_name(source) is Some {
        joined(destination, final_name(source)->Some_0)
    } else {
        destination
    }
}

/// The item for a file or a link at `source` that goes to `dest`, if the
/// policy has one.
fn push_item(
    files: &mut Vec<CopyItem>,
    node: &Node,
    source: String,
    dest: String,
    policy: SymlinkPolicy,
)
    requires
        !(node is Directory),
    ensures
        item_views(final(files)@) == item_views(old(files)@) + files_of(
            node@,
            source@,
            dest@,
            policy,
        ),
{
    let ghost before = item_views(files@);
    let kind = match node {
        Node::File => Some(ItemKind::File),
        Node::Symlink => match policy {
            SymlinkPolicy::Recreate => Some(ItemKind::Symlink),
            SymlinkPolicy::Dereference => Some(ItemKind::File),
            SymlinkPolicy::Skip => None,
        },
        _ => None,
    };
    if let Some(kind) = kind {
        files.push(CopyItem { source, dest, kind });
    }
    assert(item_views(files@) =~= before + files_of(node@, source@, dest@, policy));
}

/// Adds to `plan` what the directory at `source`, which holds `entries`
/// and goes to `destination`, asks for: the directory itself, and for each
/// entry in turn its item, or all that lies below it.
pub fn collect_files_recursive(
    entries: &Vec<Entry>,
    source: &str,
    destination: &str,
    policy: SymlinkPolicy,
    plan: &mut CopyPlan,
)
    ensures
        item_views(final(plan).files@) == item_views(old(plan).files@) + files_in(
            entry_views(entries@),
            source@,
            destination@,
            policy,
        ),
        string_views(final(plan).directories@) == string_views(old(plan).directories@)
            + directories_of(NodeView::Directory(entry_views(entries@)), destination@),
    decreases entries,
{
    let ghost files_before = item_views(plan.files@);
    let ghost dirs_before = string_views(plan.directories@);
    let ghost all = entry_views(entries@);
    plan.directories.push(destination.to_owned());
    assert(string_views(plan.directories@) =~= dirs_before + seq![destination@]);
    assert(files_before + Seq::<ItemView>::empty() =~= files_before);
    assert(dirs_before + seq![destination@] + Seq::<Seq<char>>::empty() =~= dirs_before
        + seq![destination@]);
    let mut i: usize = 0;
    while i < entries.len()
        invariant
            i <= entries.len(),
            all == entry_views(entries@),
            item_views(plan.files@) == files_before + files_in(
                all.take(i as int),
                source@,
                destination@,
                policy,
            ),
            string_views(plan.directories@) == dirs_before + seq![destination@]
                + directories_in(all.take(i as int), destination@),
        decreases entries.len() - i,
    {
        let entry = &entries[i];
        let source_path = join(source, entry.name.as_str());
        let dest_path = join(destination, entry.name.as_str());
        let ghost files_so_far = item_views(plan.files@);
        let ghost dirs_so_far = string_views(plan.directories@);
        let ghost done = all.take(i as int);
        let ghost grown = all.take(i + 1);
        proof {
            assert(grown.drop_last() =~= done);
            assert(grown.last() == entry@);
        }
        match &entry.node {
            Node::Directory(children) => {
                proof {
                    lemma_directory_view(*children);
                }
                collect_files_recursive(
                    children,
                    source_path.as_str(),
                    dest_path.as_str(),
                    policy,
                    plan,
                );
            },
            node => {
                push_item(&mut plan.files, node, source_path, dest_path, policy);
                assert(dirs_so_far + Seq::<Seq<char>>::empty() =~= dirs_so_far);
            },
        }
        proof {
            let new_files = files_of(entry@.node, source_path@, dest_path@, policy);
            let new_dirs = directories_of(entry@.node, dest_path@);
            assert(item_views(plan.files@) == files_so_far + new_files);
            assert(string_views(plan.directories@) == dirs_so_far + new_dirs);
            assert(files_before + (files_in(done, source@, destination@, policy) + new_files)
                =~= files_so_far + new_files);
            assert(dirs_before + seq![destination@] + (directories_in(done, destination@)
                + new_dirs) =~= dirs_so_far + new_dirs);
        }
        i = i + 1;
    }
    proof {
        assert(all.take(entries.len() as int) =~= all);
        assert(dirs_before + seq![destination@] + directories_in(all, destination@) =~= dirs_before
            + (seq![destination@] + directories_in(all, destination@)));
    }
}

/// Plans the copy of the source at path `source`, of which `tree` is the
/// snapshot, to `destination`.
///
/// A file or a link gives one item, which goes into the destination under
/// its own name where the destination is an existing directory, and to the
/// destination path itself where it is not. A directory gives an item for
/// every file and link below it, at the same place below the destination,
/// and asks for every directory in it at the destination, itself first and
/// empty ones too. A source of which there is no snapshot is not found; one
/// that is to go by its name and has none is refused.
pub fn collect_files(
    source: &str,
    tree: Option<&Node>,
    destination: &str,
    destination_is_dir: bool,
    policy: SymlinkPolicy,
) -> (planned: Result<CopyPlan, EnumerateError>)
    ensures
        tree is None <==> planned == Err::<CopyPlan, EnumerateError>(EnumerateError::NotFound),
        (tree matches Some(node) && goes_by_name(node@, destination_is_dir) && final_name(source@)
            is None) <==> planned == Err::<CopyPlan, EnumerateError>(EnumerateError::NoFileName),
        planned matches Ok(plan) ==> {
            let node = tree->Some_0;
            let goal = target(node@, source@, destination@, destination_is_dir);
            &&& item_views(plan.files@) == files_of(node@, source@, goal, policy)
            &&& string_views(plan.directories@) == directories_of(node@, goal)
        },
{
    let mut plan = CopyPlan { directories: Vec::new(), files: Vec::new() };
    assert(item_views(plan.files@) =~= Seq::empty());
    assert(string_views(plan.directories@) =~= Seq::empty());
    match tree {
        None => Err(EnumerateError::NotFound),
        Some(Node::Directory(entries)) => {
            proof {
                lemma_directory_view(*entries);
            }
            collect_files_recursive(entries, source, destination, policy, &mut plan);
            proof {
                let all = entry_views(entries@);
                assert(Seq::<ItemView>::empty() + files_in(all, source@, destination@, policy)
                    =~= files_in(all, source@, destination@, policy));
                assert(Seq::<Seq<char>>::empty() + directories_of(
                    NodeView::Directory(all),
                    destination@,
                ) =~= directories_of(NodeView::Directory(all), destination@));
            }
            Ok(plan)
        },
        Some(node) => {
            let by_name = destination_is_dir && match node {
                Node::File | Node::Symlink => true,
                _ => false,
            };
            let goal = if by_name {
                match file_name(source) {
                    Some(name) => join(destination, name.as_str()),
                    None => {
                        return Err(EnumerateError::NoFileName);
                    },
                }
            } else {
                destination.to_owned()
            };
            let ghost wanted = files_of(node@, source@, goal@, policy);
            push_item(&mut plan.files, node, source.to_owned(), goal, policy);
            assert(Seq::<ItemView>::empty() + wanted =~= wanted);
            Ok(plan)
        },
    }
}

} // verus!
