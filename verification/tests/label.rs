use progress_copy::label::shorten_path_safe;
use progress_copy::path::{file_name, join};

#[test]
fn short_path_is_kept() {
    assert_eq!(shorten_path_safe("a/b.txt", 30), "a/b.txt");
    assert_eq!(shorten_path_safe("", 30), "");
    assert_eq!(shorten_path_safe("", 0), "");
}

#[test]
fn path_of_exactly_the_width_is_kept() {
    let path = "dir/0123456789";
    assert_eq!(path.chars().count(), 14);
    assert_eq!(shorten_path_safe(path, 14), path);
}

#[test]
fn file_name_is_kept_behind_an_ellipsis() {
    let path = "/very/long/directory/structure/here/file.txt";
    assert_eq!(shorten_path_safe(path, 30), "...file.txt");
    assert_eq!(shorten_path_safe(path, 11), "...file.txt");
}

#[test]
fn both_ends_are_kept_where_the_file_name_is_too_long() {
    let path = "abcdefghijklmnopqrstuvwxyz0123456789";
    assert_eq!(shorten_path_safe(path, 10), "abcde...89");
    assert_eq!(shorten_path_safe(path, 7), "abc...9");
    let nested = "/very/long/directory/structure/here/file.txt";
    assert_eq!(shorten_path_safe(nested, 10), "/very...xt");
}

#[test]
fn only_the_end_is_kept_in_a_narrow_width() {
    let path = "abcdefghijklmnopqrstuvwxyz0123456789";
    assert_eq!(shorten_path_safe(path, 6), "...789");
    assert_eq!(shorten_path_safe(path, 5), "...89");
    assert_eq!(shorten_path_safe(path, 4), "...9");
}

#[test]
fn the_ellipsis_is_cut_to_the_narrowest_widths() {
    let path = "abcdefghij";
    assert_eq!(shorten_path_safe(path, 3), "...");
    assert_eq!(shorten_path_safe(path, 2), "..");
    assert_eq!(shorten_path_safe(path, 1), ".");
    assert_eq!(shorten_path_safe(path, 0), "");
}

#[test]
fn widths_count_characters_not_bytes() {
    let path = "каталог/файл.txt";
    assert_eq!(path.chars().count(), 16);
    assert!(path.len() > 16);
    assert_eq!(shorten_path_safe(path, 16), path);
    assert_eq!(shorten_path_safe(path, 12), "...файл.txt");
    assert_eq!(shorten_path_safe("щщщщщщщщщщщщ", 8), "щщщщ...щ");
}

#[test]
fn a_label_never_exceeds_its_width() {
    let paths = [
        "",
        "a",
        "/",
        "a/b",
        "/usr/share/dictionaries/words.txt",
        "no-separator-in-this-rather-long-name",
        "trailing/separator/in/a/long/path/",
        "каталог/подкаталог/файл.txt",
    ];
    for path in paths {
        for width in 0..45 {
            let label = shorten_path_safe(path, width);
            assert!(label.chars().count() <= width);
            if path.chars().count() <= width {
                assert_eq!(label, path);
            }
        }
    }
}

#[test]
fn a_path_that_ends_in_a_separator_keeps_both_ends() {
    assert_eq!(shorten_path_safe("trailing/separator/in/a/long/path/", 10), "trail...h/");
    assert_eq!(shorten_path_safe("/aaaa/bbbb/cccc/", 8), "/aaa.../");
    assert_eq!(shorten_path_safe("/aaaa/bbbb/cccc/", 5), "...c/");
    assert_eq!(shorten_path_safe("/aaaa/bbbb/cccc/", 3), "...");
}

fn named(name: &str) -> Option<String> {
    Some(name.to_string())
}

#[test]
fn file_name_is_the_last_component() {
    assert_eq!(file_name("a/b/c.txt"), named("c.txt"));
    assert_eq!(file_name("c.txt"), named("c.txt"));
    assert_eq!(file_name("/c.txt"), named("c.txt"));
    assert_eq!(file_name("каталог/файл.txt"), named("файл.txt"));
    assert_eq!(file_name("..."), named("..."));
    assert_eq!(file_name(".hidden"), named(".hidden"));
    assert_eq!(file_name("a/..b"), named("..b"));
}

#[test]
fn file_name_passes_over_separators_at_the_end() {
    assert_eq!(file_name("a/b/"), named("b"));
    assert_eq!(file_name("a/b///"), named("b"));
    assert_eq!(file_name("b/"), named("b"));
    assert_eq!(file_name("/usr/bin/"), named("bin"));
}

#[test]
fn file_name_passes_over_single_dots() {
    assert_eq!(file_name("a/."), named("a"));
    assert_eq!(file_name("a/./"), named("a"));
    assert_eq!(file_name("foo.txt/.//"), named("foo.txt"));
    assert_eq!(file_name("a/b/././."), named("b"));
    assert_eq!(file_name("./a"), named("a"));
}

#[test]
fn some_paths_have_no_file_name() {
    assert_eq!(file_name(""), None);
    assert_eq!(file_name("/"), None);
    assert_eq!(file_name("///"), None);
    assert_eq!(file_name("."), None);
    assert_eq!(file_name("./."), None);
    assert_eq!(file_name("/."), None);
    assert_eq!(file_name(".."), None);
    assert_eq!(file_name("a/.."), None);
    assert_eq!(file_name("a/../"), None);
    assert_eq!(file_name("a/../."), None);
    assert_eq!(file_name("foo.txt/.."), None);
}

#[test]
fn file_name_agrees_with_std_paths() {
    let pieces = ["", "a", "b.txt", ".", "..", "...", "/", "//", "файл"];
    let mut paths: Vec<String> = Vec::new();
    for first in pieces {
        for second in pieces {
            for third in pieces {
                paths.push(format!("{}{}{}", first, second, third));
                paths.push(format!("{}/{}/{}", first, second, third));
                paths.push(format!("{}/{}{}", first, second, third));
            }
        }
    }
    for path in &paths {
        let expected = std::path::Path::new(path)
            .file_name()
            .map(|name| name.to_string_lossy().into_owned());
        assert_eq!(file_name(path), expected);
    }
}

#[test]
fn join_puts_one_separator_between() {
    assert_eq!(join("a", "b"), "a/b");
    assert_eq!(join("a/", "b"), "a/b");
    assert_eq!(join("/", "b"), "/b");
    assert_eq!(join("", "b"), "b");
    assert_eq!(join("a", ""), "a/");
    assert_eq!(join("a", "/b"), "/b");
    assert_eq!(join("dst/dir", "файл"), "dst/dir/файл");
}

#[test]
fn join_agrees_with_std_paths() {
    let cases = [("a", "b"), ("a/", "b"), ("/", "b"), ("", "b"), ("a", ""), ("a", "/b"), ("a/b", "c.d")];
    for (base, name) in cases {
        let expected = std::path::Path::new(base).join(name);
        assert_eq!(join(base, name), expected.to_string_lossy());
    }
}
