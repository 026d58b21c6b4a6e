//! Paths as strings: their components, and how one is joined to another.

use vstd::prelude::*;
use vstd::std_specs::iter::IteratorSpec;
use vstd::string::*;

verus! {

/// The character that separates the components of a path.
pub const SEPARATOR: char = '/';

/// The position at which the last component of `path` starts: the position
/// behind the last separator, or 0 where `path` holds no separator.
pub open spec fn file_name_start(path: Seq<char>) -> int
    decreases path.len(),
{
    if path.len() == 0 {
        0
    } else if path.last() == SEPARATOR {
        path.len() as int
    } else {
        file_name_start(path.drop_last())
    }
}

/// `file_name_start` lies within the path, has a separator just before it
/// unless it is 0, and no separator at or after it.
pub proof fn lemma_file_name_start(path: Seq<char>)
    ensures
        0 <= file_name_start(path) <= path.len(),
        file_name_start(path) > 0 ==> path[file_name_start(path) - 1] == SEPARATOR,
        forall|j: int| file_name_start(path) <= j < path.len() ==> path[j] != SEPARATOR,
    decreases path.len(),
{
    if path.len() > 0 && path.last() != SEPARATOR {
        let front = path.drop_last();
        lemma_file_name_start(front);
        assert forall|j: int| file_name_start(path) <= j < path.len() implies path[j]
            != SEPARATOR by {
            if j < front.len() {
                assert(front[j] == path[j]);
            }
        }
    }
}

/// Finds where the last component of `path` starts and how many characters
/// `path` holds, in one pass over the characters.
pub(crate) fn scan(path: &str) -> (r: (usize, usize))
    ensures
        r.0 == file_name_start(path@),
        r.1 == path@.len(),
{
    let len = path.unicode_len();
    let mut chars = path.chars();
    let mut start: usize = 0;
    let mut n: usize = 0;
    assert(path@.skip(0) =~= path@);
    loop
        invariant
            len == path@.len(),
            n <= len,
            chars.obeys_prophetic_iter_laws(),
            chars.remaining() == path@.skip(n as int),
            start == file_name_start(path@.take(n as int)),
            start <= n,
        ensures
            n == len,
            start == file_name_start(path@),
        decreases len - n,
    {
        match chars.next() {
            Some(c) => {
                proof {
                    let seen = path@.take(n + 1);
                    assert(seen.drop_last() =~= path@.take(n as int));
                    assert(seen.last() == c);
                    assert(path@.skip(n as int).drop_first() =~= path@.skip(n + 1));
                }
                n = n + 1;
                if c == SEPARATOR {
                    start = n;
                }
            },
            None => {
                assert(path@.take(n as int) =~= path@);
                break;
            },
        }
    }
    (start, n)
}

/// Where the separators at the end of the first `end` characters of `path`
/// begin.
pub open spec fn trimmed_end(path: Seq<char>, end: int) -> int
    decreases end,
{
    if 0 < end <= path.len() && path[end - 1] == SEPARATOR {
        trimmed_end(path, end - 1)
    } else {
        end
    }
}

/// Where the component that ends at `end` starts.
pub open spec fn component_start(path: Seq<char>, end: int) -> int
    decreases end,
{
    if 0 < end <= path.len() && path[end - 1] != SEPARATOR {
        component_start(path, end - 1)
    } else {
        end
    }
}

/// The single dot that stands for the directory it is found in.
pub open spec fn current_dir() -> Seq<char> {
    seq!['.']
}

/// The two dots that stand for the directory above.
pub open spec fn parent_dir() -> Seq<char> {
    seq!['.', '.']
}

/// The name that the first `end` characters of `path` end in: their last
/// component, with separators behind it and components of a single dot
/// passed over. There is none where nothing is left, and none where the
/// last component is the two dots.
pub open spec fn final_name_before(path: Seq<char>, end: int) -> Option<Seq<char>>
    decreases end,
{
    let stop = trimmed_end(path, end);
    let start = component_start(path, stop);
    let name = path.subrange(start, stop);
    if !(0 <= start < stop <= end) {
        None
    } else if name == current_dir() {
        final_name_before(path, start)
    } else if name == parent_dir() {
        None
    } else {
        Some(name)
    }
}

/// The name under which `path` is known in its directory, if it has one.
pub open spec fn final_name(path: Seq<char>) -> Option<Seq<char>> {
    final_name_before(path, path.len() as int)
}

/// `name` seen from `base`: `name` itself where it starts at the root,
/// else `base` and `name` with one separator between them, which `base` may
/// bring along; an empty `base` adds nothing.
pub open spec fn joined(base: Seq<char>, name: Seq<char>) -> Seq<char> {
    if name.len() > 0 && name[0] == SEPARATOR {
        name
    } else if base.len() > 0 && base.last() != SEPARATOR {
        base + seq![SEPARATOR] + name
    } else {
        base + name
    }
}

/// The characters of `path`.
fn characters(path: &str) -> (chars: Vec<char>)
    ensures
        chars@ == path@,
{
    let mut all: Vec<char> = Vec::new();
    let mut rest = path.chars();
    assert(path@.skip(0) =~= path@);
    loop
        invariant
            rest.obeys_prophetic_iter_laws(),
            rest.remaining() == path@.skip(all.len() as int),
            all@ == path@.take(all.len() as int),
            all.len() <= path@.len(),
        ensures
            all@ == path@,
        decreases path@.len() - all.len(),
    {
        match rest.next() {
            Some(c) => {
                let ghost n = all.len() as int;
                all.push(c);
                assert(path@.skip(n).drop_first() =~= path@.skip(n + 1));
                assert(all@ =~= path@.take(n + 1));
            },
            None => {
                assert(path@.take(all.len() as int) =~= path@);
                break;
            },
        }
    }
    all
}

/// The name under which `path` is known in its directory: its last
/// component, whatever separators follow it, with components of a single
/// dot passed over. A path that is empty, is the root, or ends in the two
/// dots has none.
pub fn file_name(path: &str) -> (name: Option<String>)
    ensures
        name is Some <==> final_name(path@) is Some,
        name matches Some(n) ==> n@ == final_name(path@)->Some_0,
{
    let chars = characters(path);
    let mut end: usize = chars.len();
    loop
        invariant
            chars@ == path@,
            end <= chars.len(),
            final_name_before(path@, end as int) == final_name(path@),
        decreases end,
    {
        let mut stop: usize = end;
        while stop > 0 && chars[stop - 1] == SEPARATOR
            invariant
                chars@ == path@,
                stop <= end <= chars.len(),
                trimmed_end(path@, stop as int) == trimmed_end(path@, end as int),
            decreases stop,
        {
            stop = stop - 1;
        }
        let mut start: usize = stop;
        while start > 0 && chars[start - 1] != SEPARATOR
            invariant
                chars@ == path@,
                start <= stop <= chars.len(),
                component_start(path@, start as int) == component_start(path@, stop as int),
            decreases start,
        {
            start = start - 1;
        }
        let ghost name = path@.subrange(start as int, stop as int);
        if start >= stop {
            return None;
        }
        if stop - start == 1 && chars[start] == '.' {
            assert(name =~= current_dir());
            end = start;
        } else if stop - start == 2 && chars[start] == '.' && chars[start + 1] == '.' {
            assert(name =~= parent_dir());
            assert(name.len() != current_dir().len());
            return None;
        } else {
            proof {
                if name == current_dir() {
                    assert(name.len() == 1 && name[0] == '.');
                }
                if name == parent_dir() {
                    assert(name.len() == 2 && name[0] == '.' && name[1] == '.');
                }
            }
            return Some(String::from_str(path.substring_char(start, stop)));
        }
    }
}

/// Joins `name` to `base`.
pub fn join(base: &str, name: &str) -> (path: String)
    ensures
        path@ == joined(base@, name@),
{
    proof {
        reveal_strlit("/");
    }
    if name.unicode_len() > 0 && name.get_char(0) == SEPARATOR {
        return String::from_str(name);
    }
    let n = base.unicode_len();
    let mut path = String::from_str(base);
    if n > 0 && base.get_char(n - 1) != SEPARATOR {
        path.append("/");
        assert(path@ =~= base@ + seq![SEPARATOR]);
    }
    path.append(name);
    path
}

} // verus!
