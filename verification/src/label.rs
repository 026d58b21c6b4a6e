//! Shortening of path labels to a fixed display width.
//!
//! Widths are counted in characters. A label that does not fit keeps its file
//! name where there is one and it fits behind an ellipsis, both ends of the
//! path where not, and only the end where the width leaves no room for two
//! ends.

use vstd::prelude::*;
use vstd::string::*;
use crate::path::{file_name_start, lemma_file_name_start, scan};

verus! {

/// The width to which the labels of the indicators are cut.
pub const MAX_PATH_LENGTH: usize = 30;

/// The marker that stands for elided characters.
pub open spec fn ellipsis() -> Seq<char> {
    seq!['.', '.', '.']
}

/// The label shown for `path` where at most `max` characters fit.
pub open spec fn shortened(path: Seq<char>, max: int) -> Seq<char> {
    let n = path.len() as int;
    let name = file_name_start(path);
    let head = max / 2;
    let tail = max - head - 3;
    if n <= max {
        path
    } else if 0 < name < n && (n - name) + 3 <= max {
        ellipsis() + path.subrange(name, n)
    } else if head > 0 && tail > 0 {
        path.subrange(0, head) + ellipsis() + path.subrange(n - tail, n)
    } else if max > 3 {
        ellipsis() + path.subrange(n - (max - 3), n)
    } else {
        ellipsis().subrange(0, max)
    }
}

/// A label never takes more room than the width it was cut to.
pub proof fn lemma_shortened_fits(path: Seq<char>, max: int)
    requires
        0 <= max,
    ensures
        shortened(path, max).len() <= max,
        path.len() <= max ==> shortened(path, max) == path,
{
    lemma_file_name_start(path);
}

/// Shortens `path` to at most `max_length` characters.
pub fn shorten_path_safe(path: &str, max_length: usize) -> (label: String)
    ensures
        label@ == shortened(path@, max_length as int),
        label@.len() <= max_length,
{
    proof {
        reveal_strlit("...");
        lemma_shortened_fits(path@, max_length as int);
        lemma_file_name_start(path@);
    }
    let (name, n) = scan(path);
    if n <= max_length {
        return String::from_str(path);
    }
    if name > 0 && name < n && max_length >= 3 && n - name <= max_length - 3 {
        let mut label = String::from_str("...");
        label.append(path.substring_char(name, n));
        return label;
    }
    let head: usize = max_length / 2;
    if head > 0 && max_length - head > 3 {
        let tail: usize = max_length - head - 3;
        let mut label = String::from_str(path.substring_char(0, head));
        label.append("...");
        label.append(path.substring_char(n - tail, n));
        return label;
    }
    if max_length > 3 {
        let mut label = String::from_str("...");
        label.append(path.substring_char(n - (max_length - 3), n));
        label
    } else {
        String::from_str("...".substring_char(0, max_length))
    }
}

} // verus!
