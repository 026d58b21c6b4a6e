use progress_copy::enumerate::{
    collect_files, collect_files_recursive, CopyPlan, EnumerateError, SymlinkPolicy,
};
use progress_copy::item::{CopyItem, ItemKind};
use progress_copy::tree::{Entry, Node};

fn entry(name: &str, node: Node) -> Entry {
    Entry { name: name.to_string(), node }
}

fn file(source: &str, dest: &str) -> CopyItem {
    CopyItem { source: source.to_string(), dest: dest.to_string(), kind: ItemKind::File }
}

fn link(source: &str, dest: &str) -> CopyItem {
    CopyItem { source: source.to_string(), dest: dest.to_string(), kind: ItemKind::Symlink }
}

fn sample_tree() -> Node {
    Node::Directory(vec![
        entry("a.txt", Node::File),
        entry(
            "sub",
            Node::Directory(vec![
                entry("b.txt", Node::File),
                entry("empty", Node::Directory(Vec::new())),
                entry("deep", Node::Directory(vec![entry("c.txt", Node::File)])),
                entry("l", Node::Symlink),
            ]),
        ),
        entry("pipe", Node::Other),
        entry("z.txt", Node::File),
    ])
}

#[test]
fn a_missing_source_is_not_found() {
    let planned = collect_files("nowhere", None, "dst", true, SymlinkPolicy::Recreate);
    assert_eq!(planned, Err(EnumerateError::NotFound));
}

#[test]
fn a_file_goes_into_an_existing_directory_under_its_name() {
    let planned = collect_files("some/dir/a.txt", Some(&Node::File), "dst", true, SymlinkPolicy::Recreate);
    assert_eq!(
        planned,
        Ok(CopyPlan { directories: Vec::new(), files: vec![file("some/dir/a.txt", "dst/a.txt")] })
    );
}

#[test]
fn a_source_named_with_separators_behind_it_goes_under_its_name() {
    let planned = collect_files("some/dir/a.txt/", Some(&Node::Symlink), "dst", true, SymlinkPolicy::Recreate);
    assert_eq!(planned.unwrap().files, vec![link("some/dir/a.txt/", "dst/a.txt")]);
    let dotted = collect_files("some/a.txt/.", Some(&Node::File), "dst", true, SymlinkPolicy::Recreate);
    assert_eq!(dotted.unwrap().files, vec![file("some/a.txt/.", "dst/a.txt")]);
}

#[test]
fn a_source_without_a_name_cannot_go_into_a_directory() {
    for source in ["", "/", "..", "a/..", "."] {
        for node in [Node::File, Node::Symlink] {
            let planned = collect_files(source, Some(&node), "dst", true, SymlinkPolicy::Recreate);
            assert_eq!(planned, Err(EnumerateError::NoFileName));
        }
    }
}

#[test]
fn a_source_without_a_name_is_planned_where_no_name_is_needed() {
    let to_path = collect_files("a/..", Some(&Node::File), "dst/b", false, SymlinkPolicy::Recreate);
    assert_eq!(to_path.unwrap().files, vec![file("a/..", "dst/b")]);
    let tree = Node::Directory(vec![entry("x", Node::File)]);
    let directory = collect_files("..", Some(&tree), "dst", true, SymlinkPolicy::Recreate);
    assert_eq!(directory.unwrap().files, vec![file("../x", "dst/x")]);
    let other = collect_files("..", Some(&Node::Other), "dst", true, SymlinkPolicy::Recreate);
    assert_eq!(other, Ok(CopyPlan { directories: Vec::new(), files: Vec::new() }));
    let missing = collect_files("..", None, "dst", true, SymlinkPolicy::Recreate);
    assert_eq!(missing, Err(EnumerateError::NotFound));
}

#[test]
fn a_file_goes_to_a_destination_that_is_no_directory_as_it_is() {
    let planned = collect_files("some/dir/a.txt", Some(&Node::File), "dst/b.txt", false, SymlinkPolicy::Recreate);
    assert_eq!(
        planned,
        Ok(CopyPlan { directories: Vec::new(), files: vec![file("some/dir/a.txt", "dst/b.txt")] })
    );
}

#[test]
fn a_link_is_recreated_dereferenced_or_skipped() {
    let recreated = collect_files("l", Some(&Node::Symlink), "dst", true, SymlinkPolicy::Recreate).unwrap();
    assert_eq!(recreated.files, vec![link("l", "dst/l")]);
    let followed = collect_files("l", Some(&Node::Symlink), "dst", true, SymlinkPolicy::Dereference).unwrap();
    assert_eq!(followed.files, vec![file("l", "dst/l")]);
    let skipped = collect_files("l", Some(&Node::Symlink), "dst", true, SymlinkPolicy::Skip).unwrap();
    assert!(skipped.files.is_empty());
    assert!(skipped.directories.is_empty());
}

#[test]
fn a_source_that_is_neither_file_link_nor_directory_gives_nothing() {
    let planned = collect_files("fifo", Some(&Node::Other), "dst", true, SymlinkPolicy::Recreate);
    assert_eq!(planned, Ok(CopyPlan { directories: Vec::new(), files: Vec::new() }));
}

#[test]
fn a_directory_is_walked_in_order_and_mirrored() {
    let tree = sample_tree();
    let plan = collect_files("src", Some(&tree), "dst", true, SymlinkPolicy::Recreate).unwrap();
    assert_eq!(
        plan.files,
        vec![
            file("src/a.txt", "dst/a.txt"),
            file("src/sub/b.txt", "dst/sub/b.txt"),
            file("src/sub/deep/c.txt", "dst/sub/deep/c.txt"),
            link("src/sub/l", "dst/sub/l"),
            file("src/z.txt", "dst/z.txt"),
        ]
    );
    assert_eq!(plan.directories, vec!["dst", "dst/sub", "dst/sub/empty", "dst/sub/deep"]);
}

#[test]
fn a_directory_goes_to_the_destination_itself_whether_or_not_it_exists() {
    let tree = Node::Directory(vec![entry("a", Node::File)]);
    let into_new = collect_files("src", Some(&tree), "dst", false, SymlinkPolicy::Recreate).unwrap();
    let into_old = collect_files("src", Some(&tree), "dst", true, SymlinkPolicy::Recreate).unwrap();
    assert_eq!(into_new, into_old);
    assert_eq!(into_new.files, vec![file("src/a", "dst/a")]);
    assert_eq!(into_new.directories, vec!["dst"]);
}

#[test]
fn an_empty_directory_is_still_created() {
    let tree = Node::Directory(Vec::new());
    let plan = collect_files("src", Some(&tree), "dst", false, SymlinkPolicy::Recreate).unwrap();
    assert!(plan.files.is_empty());
    assert_eq!(plan.directories, vec!["dst"]);
}

#[test]
fn skipped_links_leave_the_rest_of_the_walk_as_it_is() {
    let tree = sample_tree();
    let plan = collect_files("src", Some(&tree), "dst", true, SymlinkPolicy::Skip).unwrap();
    assert_eq!(plan.files.len(), 4);
    assert!(plan.files.iter().all(|item| item.kind == ItemKind::File));
    assert_eq!(plan.directories.len(), 4);
    let followed = collect_files("src", Some(&tree), "dst", true, SymlinkPolicy::Dereference).unwrap();
    assert_eq!(followed.files[3], file("src/sub/l", "dst/sub/l"));
}

#[test]
fn trailing_separators_do_not_double() {
    let tree = Node::Directory(vec![entry("a", Node::File)]);
    let plan = collect_files("src/", Some(&tree), "dst/", true, SymlinkPolicy::Recreate).unwrap();
    assert_eq!(plan.files, vec![file("src/a", "dst/a")]);
    assert_eq!(plan.directories, vec!["dst/"]);
}

#[test]
fn the_walk_adds_to_a_plan_that_is_under_way() {
    let mut plan = CopyPlan { directories: vec!["x".to_string()], files: vec![file("p", "q")] };
    let entries = vec![entry("a", Node::File), entry("d", Node::Directory(Vec::new()))];
    collect_files_recursive(&entries, "src", "dst", SymlinkPolicy::Recreate, &mut plan);
    assert_eq!(plan.files, vec![file("p", "q"), file("src/a", "dst/a")]);
    assert_eq!(plan.directories, vec!["x", "dst", "dst/d"]);
}

#[test]
fn two_sources_of_one_name_go_to_one_destination() {
    let first = collect_files("one/same.txt", Some(&Node::File), "dst", true, SymlinkPolicy::Recreate).unwrap();
    let second = collect_files("two/same.txt", Some(&Node::File), "dst", true, SymlinkPolicy::Recreate).unwrap();
    assert_eq!(first.files[0].dest, "dst/same.txt");
    assert_eq!(second.files[0].dest, first.files[0].dest);
    assert_ne!(second.files[0].source, first.files[0].source);
}

#[test]
fn every_leaf_is_planned_once_and_every_directory_on_its_way_is_asked_for() {
    let tree = sample_tree();
    let plan = collect_files("src", Some(&tree), "dst", true, SymlinkPolicy::Recreate).unwrap();
    let mut sources: Vec<&str> = plan.files.iter().map(|item| item.source.as_str()).collect();
    sources.sort();
    let before = sources.len();
    sources.dedup();
    assert_eq!(sources.len(), before);
    assert_eq!(
        sources,
        vec!["src/a.txt", "src/sub/b.txt", "src/sub/deep/c.txt", "src/sub/l", "src/z.txt"]
    );
    for item in &plan.files {
        let parent = std::path::Path::new(&item.dest).parent().unwrap();
        assert!(plan.directories.iter().any(|dir| std::path::Path::new(dir) == parent));
        assert_eq!(item.dest.strip_prefix("dst"), item.source.strip_prefix("src"));
    }
}
