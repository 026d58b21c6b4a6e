//! What holds of an enumeration: every file and link of the source is
//! planned exactly once, and every directory on the way to it is asked for.
//!
//! A place in a tree is named by its route: the position to take in the
//! entries of the root, then in those of the directory found there, and so on.

use vstd::prelude::*;
use crate::enumerate::{directories_in, directories_of, files_in, files_of, SymlinkPolicy};
use crate::item::{ItemKind, ItemView};
use crate::path::joined;
use crate::path_laws::{joined_all, lemma_joined_all_injective, valid_name};
use crate::tree::{EntryView, NodeView};

verus! {

/// Whether a node is copied as an item of its own.
pub open spec fn is_leaf(node: NodeView, policy: SymlinkPolicy) -> bool {
    node is File || (node is Symlink && policy != SymlinkPolicy::Skip)
}

/// The number of items below a node, itself included.
pub open spec fn leaves_of(node: NodeView, policy: SymlinkPolicy) -> nat
    decreases node,
{
    match node {
        NodeView::Directory(entries) => leaves_in(entries, policy),
        _ => if is_leaf(node, policy) {
            1
        } else {
            0
        },
    }
}

/// The number of items below the entries of a directory.
pub open spec fn leaves_in(entries: Seq<EntryView>, policy: SymlinkPolicy) -> nat
    decreases entries,
{
    if entries.len() == 0 {
        0
    } else {
        leaves_in(entries.drop_last(), policy) + leaves_of(entries.last().node, policy)
    }
}

/// Whether `route` leads from `entries` to a node that is copied.
pub open spec fn leads_to_leaf(entries: Seq<EntryView>, route: Seq<int>, policy: SymlinkPolicy) -> bool
    decreases route.len(),
{
    &&& route.len() > 0
    &&& 0 <= route[0] < entries.len()
    &&& if route.len() == 1 {
        is_leaf(entries[route[0]].node, policy)
    } else {
        &&& entries[route[0]].node is Directory
        &&& leads_to_leaf(entries[route[0]].node->Directory_0, route.drop_first(), policy)
    }
}

/// Whether `route` leads from `entries` to a directory.
pub open spec fn leads_to_directory(entries: Seq<EntryView>, route: Seq<int>) -> bool
    decreases route.len(),
{
    &&& route.len() > 0
    &&& 0 <= route[0] < entries.len()
    &&& entries[route[0]].node is Directory
    &&& route.len() > 1 ==> leads_to_directory(
        entries[route[0]].node->Directory_0,
        route.drop_first(),
    )
}

/// The path of the place that `route` leads to, seen from `base`: the names
/// on the route joined to `base` one after the other.
pub open spec fn path_along(entries: Seq<EntryView>, route: Seq<int>, base: Seq<char>) -> Seq<char>
    decreases route.len(),
{
    if route.len() == 0 {
        base
    } else {
        let entry = entries[route[0]];
        path_along(entry.node->Directory_0, route.drop_first(), joined(base, entry.name))
    }
}

/// The node that `route` leads to.
pub open spec fn node_along(entries: Seq<EntryView>, route: Seq<int>) -> NodeView
    decreases route.len(),
{
    if route.len() <= 1 {
        entries[route[0]].node
    } else {
        node_along(entries[route[0]].node->Directory_0, route.drop_first())
    }
}

/// The item that stands for the leaf at the end of `route`.
pub open spec fn leaf_item(
    entries: Seq<EntryView>,
    route: Seq<int>,
    source: Seq<char>,
    dest: Seq<char>,
    policy: SymlinkPolicy,
) -> ItemView {
    ItemView {
        source: path_along(entries, route, source),
        dest: path_along(entries, route, dest),
        kind: if node_along(entries, route) is Symlink && policy == SymlinkPolicy::Recreate {
            ItemKind::Symlink
        } else {
            ItemKind::File
        },
    }
}

/// The place in the enumeration of the leaf at the end of `route`: the
/// number of leaves that the walk meets before it.
pub open spec fn index_of(entries: Seq<EntryView>, route: Seq<int>, policy: SymlinkPolicy) -> int
    decreases route.len(),
{
    if route.len() == 0 {
        0
    } else {
        let before = leaves_in(entries.take(route[0]), policy) as int;
        if route.len() == 1 {
            before
        } else {
            before + index_of(entries[route[0]].node->Directory_0, route.drop_first(), policy)
        }
    }
}

/// The route to the leaf that the walk meets after `i` others.
pub open spec fn route_of(entries: Seq<EntryView>, i: int, policy: SymlinkPolicy) -> Seq<int>
    decreases entries,
{
    if entries.len() == 0 {
        Seq::empty()
    } else {
        let front = entries.drop_last();
        let before = leaves_in(front, policy) as int;
        if i < before {
            route_of(front, i, policy)
        } else {
            match entries.last().node {
                NodeView::Directory(children) => seq![entries.len() - 1] + route_of(
                    children,
                    i - before,
                    policy,
                ),
                _ => seq![entries.len() - 1],
            }
        }
    }
}

/// There are as many items as leaves, wherever the tree stands.
pub proof fn lemma_files_count(
    node: NodeView,
    source: Seq<char>,
    dest: Seq<char>,
    policy: SymlinkPolicy,
)
    ensures
        files_of(node, source, dest, policy).len() == leaves_of(node, policy),
    decreases node,
{
    match node {
        NodeView::Directory(entries) => lemma_files_count_in(entries, source, dest, policy),
        _ => {},
    }
}

/// There are as many items as leaves below the entries of a directory.
pub proof fn lemma_files_count_in(
    entries: Seq<EntryView>,
    source: Seq<char>,
    dest: Seq<char>,
    policy: SymlinkPolicy,
)
    ensures
        files_in(entries, source, dest, policy).len() == leaves_in(entries, policy),
    decreases entries,
{
    if entries.len() > 0 {
        let last = entries.last();
        lemma_files_count_in(entries.drop_last(), source, dest, policy);
        lemma_files_count(last.node, joined(source, last.name), joined(dest, last.name), policy);
    }
}

/// The items of the entry at position `j` stand together in the enumeration,
/// behind those of the entries before it.
pub proof fn lemma_files_of_entry(
    entries: Seq<EntryView>,
    j: int,
    k: int,
    source: Seq<char>,
    dest: Seq<char>,
    policy: SymlinkPolicy,
)
    requires
        0 <= j < entries.len(),
        0 <= k < leaves_of(entries[j].node, policy),
    ensures
        leaves_in(entries.take(j), policy) + k < leaves_in(entries, policy),
        files_in(entries, source, dest, policy)[leaves_in(entries.take(j), policy) + k]
            == files_of(
            entries[j].node,
            joined(source, entries[j].name),
            joined(dest, entries[j].name),
            policy,
        )[k],
    decreases entries.len(),
{
    let front = entries.drop_last();
    let last = entries.last();
    lemma_files_count_in(entries, source, dest, policy);
    lemma_files_count(last.node, joined(source, last.name), joined(dest, last.name), policy);
    if j < entries.len() - 1 {
        assert(front.take(j) =~= entries.take(j));
        lemma_files_of_entry(front, j, k, source, dest, policy);
    }
}

/// Every leaf of the tree is planned: its item stands in the enumeration at
/// the place that its route gives.
pub proof fn lemma_leaf_is_planned(
    entries: Seq<EntryView>,
    route: Seq<int>,
    source: Seq<char>,
    dest: Seq<char>,
    policy: SymlinkPolicy,
)
    requires
        leads_to_leaf(entries, route, policy),
    ensures
        0 <= index_of(entries, route, policy) < files_in(entries, source, dest, policy).len(),
        files_in(entries, source, dest, policy)[index_of(entries, route, policy)] == leaf_item(
            entries,
            route,
            source,
            dest,
            policy,
        ),
        0 <= index_of(entries, route, policy) - leaves_in(entries.take(route[0]), policy)
            < leaves_of(entries[route[0]].node, policy),
    decreases route.len(),
{
    let j = route[0];
    let entry = entries[j];
    let s = joined(source, entry.name);
    let d = joined(dest, entry.name);
    lemma_files_count_in(entries, source, dest, policy);
    if route.len() == 1 {
        lemma_files_of_entry(entries, j, 0, source, dest, policy);
    } else {
        let children = entry.node->Directory_0;
        let rest = route.drop_first();
        lemma_leaf_is_planned(children, rest, s, d, policy);
        lemma_files_count_in(children, s, d, policy);
        lemma_files_of_entry(entries, j, index_of(children, rest, policy), source, dest, policy);
    }
}

/// Every item of the plan stands for a leaf of the tree: the one that its
/// place in the enumeration leads to. The route that leads there gives that
/// place back, so no leaf is planned twice.
pub proof fn lemma_item_is_leaf(
    entries: Seq<EntryView>,
    i: int,
    source: Seq<char>,
    dest: Seq<char>,
    policy: SymlinkPolicy,
)
    requires
        0 <= i < files_in(entries, source, dest, policy).len(),
    ensures
        leads_to_leaf(entries, route_of(entries, i, policy), policy),
        index_of(entries, route_of(entries, i, policy), policy) == i,
        files_in(entries, source, dest, policy)[i] == leaf_item(
            entries,
            route_of(entries, i, policy),
            source,
            dest,
            policy,
        ),
    decreases entries,
{
    lemma_files_count_in(entries, source, dest, policy);
    let front = entries.drop_last();
    let last = entries.last();
    let before = leaves_in(front, policy) as int;
    lemma_files_count_in(front, source, dest, policy);
    assert(leaves_in(entries, policy) == before + leaves_of(last.node, policy));
    if i < before {
        lemma_item_is_leaf(front, i, source, dest, policy);
        let route = route_of(front, i, policy);
        lemma_route_in_front(entries, route, source, dest, policy);
    } else {
        let j = entries.len() - 1;
        match last.node {
            NodeView::Directory(children) => {
                let s = joined(source, last.name);
                let d = joined(dest, last.name);
                lemma_files_count_in(children, s, d, policy);
                lemma_item_is_leaf(children, i - before, s, d, policy);
                let rest = route_of(children, i - before, policy);
                let route = seq![j] + rest;
                assert(route.drop_first() =~= rest);
                assert(files_in(entries, source, dest, policy) == files_in(
                    front,
                    source,
                    dest,
                    policy,
                ) + files_of(last.node, s, d, policy));
            },
            _ => {
                let route = seq![j];
                let s = joined(source, last.name);
                let d = joined(dest, last.name);
                let below = last.node->Directory_0;
                assert(path_along(below, route.drop_first(), s) == s);
                assert(path_along(below, route.drop_first(), d) == d);
                assert(files_in(entries, source, dest, policy)[i] == files_of(
                    last.node,
                    s,
                    d,
                    policy,
                )[0]);
            },
        }
    }
}

/// A route that stays among all entries but the last means the same there
/// as among all of them.
pub proof fn lemma_route_in_front(
    entries: Seq<EntryView>,
    route: Seq<int>,
    source: Seq<char>,
    dest: Seq<char>,
    policy: SymlinkPolicy,
)
    requires
        entries.len() > 0,
        route.len() > 0,
        0 <= route[0] < entries.len() - 1,
    ensures
        leads_to_leaf(entries, route, policy) == leads_to_leaf(
            entries.drop_last(),
            route,
            policy,
        ),
        index_of(entries, route, policy) == index_of(entries.drop_last(), route, policy),
        leaf_item(entries, route, source, dest, policy) == leaf_item(
            entries.drop_last(),
            route,
            source,
            dest,
            policy,
        ),
{
    let front = entries.drop_last();
    assert(front.take(route[0]) =~= entries.take(route[0]));
}

/// The place in the enumeration that a leaf's route gives leads back to
/// that route, so no two leaves share an item.
pub proof fn lemma_leaf_planned_once(entries: Seq<EntryView>, route: Seq<int>, policy: SymlinkPolicy)
    requires
        leads_to_leaf(entries, route, policy),
    ensures
        route_of(entries, index_of(entries, route, policy), policy) == route,
    decreases entries,
{
    let j = route[0];
    let front = entries.drop_last();
    let empty = Seq::<char>::empty();
    lemma_leaf_is_planned(entries, route, empty, empty, policy);
    if j < entries.len() - 1 {
        lemma_route_in_front(entries, route, empty, empty, policy);
        lemma_leaf_planned_once(front, route, policy);
    } else if route.len() > 1 {
        let children = entries[j].node->Directory_0;
        let rest = route.drop_first();
        lemma_leaf_planned_once(children, rest, policy);
    }
}

/// What the entry at position `j` asks for is asked for by the directory
/// that holds it.
pub proof fn lemma_directories_of_entry(
    entries: Seq<EntryView>,
    j: int,
    dest: Seq<char>,
    path: Seq<char>,
)
    requires
        0 <= j < entries.len(),
        directories_of(entries[j].node, joined(dest, entries[j].name)).contains(path),
    ensures
        directories_in(entries, dest).contains(path),
    decreases entries.len(),
{
    let front = entries.drop_last();
    let last = entries.last();
    let earlier = directories_in(front, dest);
    let own = directories_of(last.node, joined(dest, last.name));
    if j == entries.len() - 1 {
        let k = choose|k: int| 0 <= k < own.len() && own[k] == path;
        assert((earlier + own)[earlier.len() + k] == path);
    } else {
        lemma_directories_of_entry(front, j, dest, path);
        let k = choose|k: int| 0 <= k < earlier.len() && earlier[k] == path;
        assert((earlier + own)[k] == path);
    }
}

/// Every directory of the tree is asked for at the destination, at the path
/// that its route gives, whether or not anything lies below it.
pub proof fn lemma_directory_is_asked_for(entries: Seq<EntryView>, route: Seq<int>, dest: Seq<char>)
    requires
        leads_to_directory(entries, route),
    ensures
        directories_in(entries, dest).contains(path_along(entries, route, dest)),
    decreases route.len(),
{
    let j = route[0];
    let entry = entries[j];
    let children = entry.node->Directory_0;
    let below = joined(dest, entry.name);
    let own = directories_of(entry.node, below);
    let rest = route.drop_first();
    if route.len() == 1 {
        assert(path_along(children, rest, below) == below);
        assert(own[0] == below);
    } else {
        lemma_directory_is_asked_for(children, rest, below);
        let deeper = directories_in(children, below);
        let k = choose|k: int| 0 <= k < deeper.len() && deeper[k] == path_along(children, rest, below);
        assert(own[k + 1] == deeper[k]);
    }
    lemma_directories_of_entry(entries, j, dest, path_along(entries, route, dest));
}

/// Every step on the way to a leaf but the last leads to a directory.
pub proof fn lemma_way_to_leaf(
    entries: Seq<EntryView>,
    route: Seq<int>,
    policy: SymlinkPolicy,
    k: int,
)
    requires
        leads_to_leaf(entries, route, policy),
        0 < k < route.len(),
    ensures
        leads_to_directory(entries, route.take(k)),
    decreases route.len(),
{
    let way = route.take(k);
    if k > 1 {
        lemma_way_to_leaf(entries[route[0]].node->Directory_0, route.drop_first(), policy, k - 1);
        assert(way.drop_first() =~= route.drop_first().take(k - 1));
    }
}

/// Every directory on the way to a leaf is asked for at the destination, so
/// that it exists before the leaf is copied into it. The destination of a
/// source directory itself is asked for first of all.
pub proof fn lemma_intermediate_directories(
    entries: Seq<EntryView>,
    route: Seq<int>,
    dest: Seq<char>,
    policy: SymlinkPolicy,
    k: int,
)
    requires
        leads_to_leaf(entries, route, policy),
        0 < k < route.len(),
    ensures
        directories_of(NodeView::Directory(entries), dest).contains(
            path_along(entries, route.take(k), dest),
        ),
        directories_of(NodeView::Directory(entries), dest)[0] == dest,
{
    lemma_way_to_leaf(entries, route, policy, k);
    lemma_directory_is_asked_for(entries, route.take(k), dest);
    let below = directories_in(entries, dest);
    let path = path_along(entries, route.take(k), dest);
    let at = choose|at: int| 0 <= at < below.len() && below[at] == path;
    assert(directories_of(NodeView::Directory(entries), dest)[at + 1] == below[at]);
}

/// The names on a route, from the root down.
pub open spec fn names_along(entries: Seq<EntryView>, route: Seq<int>) -> Seq<Seq<char>>
    decreases route.len(),
{
    if route.len() == 0 {
        Seq::empty()
    } else {
        let entry = entries[route[0]];
        seq![entry.name] + names_along(entry.node->Directory_0, route.drop_first())
    }
}

/// Whether a tree is named as a file system names its entries: every name
/// is valid, and no two entries of one directory share a name.
pub open spec fn well_named(entries: Seq<EntryView>) -> bool
    decreases entries,
{
    &&& forall|i: int| 0 <= i < entries.len() ==> valid_name(#[trigger] entries[i].name)
    &&& forall|i: int, j: int|
        0 <= i < j < entries.len() ==> (#[trigger] entries[i]).name != (#[trigger] entries[j]).name
    &&& forall|i: int|
        0 <= i < entries.len() && (#[trigger] entries[i]).node is Directory ==> well_named(
            entries[i].node->Directory_0,
        )
}

/// The path that a route leads to is the base with the names on the route
/// joined to it one after the other.
pub proof fn lemma_path_joins_names(entries: Seq<EntryView>, route: Seq<int>, base: Seq<char>)
    ensures
        path_along(entries, route, base) == joined_all(base, names_along(entries, route)),
    decreases route.len(),
{
    if route.len() > 0 {
        let entry = entries[route[0]];
        let children = entry.node->Directory_0;
        let rest = route.drop_first();
        lemma_path_joins_names(children, rest, joined(base, entry.name));
        let names = names_along(entries, route);
        assert(names.drop_first() =~= names_along(children, rest));
    }
}

/// In a well-named tree the names on the way to a leaf are valid, one for
/// each step.
pub proof fn lemma_names_valid(entries: Seq<EntryView>, route: Seq<int>, policy: SymlinkPolicy)
    requires
        well_named(entries),
        leads_to_leaf(entries, route, policy),
    ensures
        names_along(entries, route).len() == route.len(),
        forall|k: int|
            0 <= k < route.len() ==> valid_name(#[trigger] names_along(entries, route)[k]),
    decreases route.len(),
{
    let entry = entries[route[0]];
    let children = entry.node->Directory_0;
    let rest = route.drop_first();
    if route.len() > 1 {
        lemma_names_valid(children, rest, policy);
    } else {
        assert(names_along(children, rest).len() == 0);
    }
}

/// In a well-named tree two leaves that are reached by the same names are
/// the same leaf.
pub proof fn lemma_names_name_one_leaf(
    entries: Seq<EntryView>,
    r1: Seq<int>,
    r2: Seq<int>,
    policy: SymlinkPolicy,
)
    requires
        well_named(entries),
        leads_to_leaf(entries, r1, policy),
        leads_to_leaf(entries, r2, policy),
        names_along(entries, r1) == names_along(entries, r2),
    ensures
        r1 == r2,
    decreases r1.len(),
{
    let n1 = names_along(entries, r1);
    let n2 = names_along(entries, r2);
    assert(n2[0] == entries[r2[0]].name);
    let children = entries[r1[0]].node->Directory_0;
    if r1.len() > 1 {
        assert(n1.drop_first() =~= names_along(children, r1.drop_first()));
        assert(n2.drop_first() =~= names_along(children, r2.drop_first()));
        lemma_names_name_one_leaf(children, r1.drop_first(), r2.drop_first(), policy);
        assert(r2 =~= seq![r2[0]] + r2.drop_first());
    }
}

/// In a well-named tree no two leaves lie at the same path.
pub proof fn lemma_leaf_paths_differ(
    entries: Seq<EntryView>,
    r1: Seq<int>,
    r2: Seq<int>,
    base: Seq<char>,
    policy: SymlinkPolicy,
)
    requires
        well_named(entries),
        leads_to_leaf(entries, r1, policy),
        leads_to_leaf(entries, r2, policy),
        path_along(entries, r1, base) == path_along(entries, r2, base),
    ensures
        r1 == r2,
{
    lemma_names_valid(entries, r1, policy);
    lemma_names_valid(entries, r2, policy);
    lemma_path_joins_names(entries, r1, base);
    lemma_path_joins_names(entries, r2, base);
    lemma_joined_all_injective(base, names_along(entries, r1), names_along(entries, r2));
    lemma_names_name_one_leaf(entries, r1, r2, policy);
}

/// The plan for a well-named tree holds no path twice: no two of its items
/// come from the same source path, and no two go to the same destination
/// path.
pub proof fn lemma_planned_paths_differ(
    entries: Seq<EntryView>,
    i: int,
    j: int,
    source: Seq<char>,
    dest: Seq<char>,
    policy: SymlinkPolicy,
)
    requires
        well_named(entries),
        0 <= i < j < files_in(entries, source, dest, policy).len(),
    ensures
        files_in(entries, source, dest, policy)[i].source != files_in(
            entries,
            source,
            dest,
            policy,
        )[j].source,
        files_in(entries, source, dest, policy)[i].dest != files_in(
            entries,
            source,
            dest,
            policy,
        )[j].dest,
{
    let ri = route_of(entries, i, policy);
    let rj = route_of(entries, j, policy);
    lemma_item_is_leaf(entries, i, source, dest, policy);
    lemma_item_is_leaf(entries, j, source, dest, policy);
    if path_along(entries, ri, source) == path_along(entries, rj, source) {
        lemma_leaf_paths_differ(entries, ri, rj, source, policy);
    }
    if path_along(entries, ri, dest) == path_along(entries, rj, dest) {
        lemma_leaf_paths_differ(entries, ri, rj, dest, policy);
    }
}

} // verus!
