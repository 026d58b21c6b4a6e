//! What holds of joined paths: names that are joined one after the other can
//! be read off the path again.

use vstd::prelude::*;
use crate::path::{joined, SEPARATOR};

verus! {

/// Whether `name` can name an entry of a directory: it is not empty and
/// holds no separator.
pub open spec fn valid_name(name: Seq<char>) -> bool {
    &&& name.len() > 0
    &&& forall|i: int| 0 <= i < name.len() ==> name[i] != SEPARATOR
}

/// `base` as the start of the paths below it: with a separator at its end,
/// unless it is empty.
pub open spec fn stem(base: Seq<char>) -> Seq<char> {
    if base.len() > 0 && base.last() != SEPARATOR {
        base + seq![SEPARATOR]
    } else {
        base
    }
}

/// The names with one separator between each two of them.
pub open spec fn relative(names: Seq<Seq<char>>) -> Seq<char>
    decreases names.len(),
{
    if names.len() == 0 {
        Seq::empty()
    } else if names.len() == 1 {
        names[0]
    } else {
        names[0] + seq![SEPARATOR] + relative(names.drop_first())
    }
}

/// `base` with each of the names joined to it in turn.
pub open spec fn joined_all(base: Seq<char>, names: Seq<Seq<char>>) -> Seq<char>
    decreases names.len(),
{
    if names.len() == 0 {
        base
    } else {
        joined_all(joined(base, names[0]), names.drop_first())
    }
}

/// Names joined to a base one after the other stand behind the base's
/// stem with one separator between each two of them.
pub proof fn lemma_joined_all(base: Seq<char>, names: Seq<Seq<char>>)
    requires
        names.len() > 0,
        forall|k: int| 0 <= k < names.len() ==> valid_name(#[trigger] names[k]),
    ensures
        joined_all(base, names) == stem(base) + relative(names),
    decreases names.len(),
{
    let first = joined(base, names[0]);
    let rest = names.drop_first();
    if names.len() == 1 {
        assert(joined_all(first, rest) == first);
    } else {
        lemma_joined_all(first, rest);
    }
}

/// The first name of a relative path ends where its first separator
/// stands, or where the path ends.
pub proof fn lemma_relative_head(names: Seq<Seq<char>>)
    requires
        names.len() > 0,
        forall|k: int| 0 <= k < names.len() ==> valid_name(#[trigger] names[k]),
    ensures
        relative(names).len() >= names[0].len(),
        relative(names).subrange(0, names[0].len() as int) == names[0],
        names.len() == 1 ==> relative(names).len() == names[0].len(),
        names.len() > 1 ==> relative(names).len() > names[0].len() && relative(
            names,
        )[names[0].len() as int] == SEPARATOR && relative(names).subrange(
            names[0].len() as int + 1,
            relative(names).len() as int,
        ) == relative(names.drop_first()),
{
}

/// Two lists of names that give the same relative path are the same list.
pub proof fn lemma_relative_injective(a: Seq<Seq<char>>, b: Seq<Seq<char>>)
    requires
        a.len() > 0,
        b.len() > 0,
        forall|k: int| 0 <= k < a.len() ==> valid_name(#[trigger] a[k]),
        forall|k: int| 0 <= k < b.len() ==> valid_name(#[trigger] b[k]),
        relative(a) == relative(b),
    ensures
        a == b,
    decreases a.len(),
{
    lemma_relative_head(a);
    lemma_relative_head(b);
    if a.len() > 1 && b.len() > 1 {
        let ra = a.drop_first();
        let rb = b.drop_first();
        lemma_relative_injective(ra, rb);
        assert(b =~= seq![b[0]] + rb);
    }
}

/// Two lists of names that are joined to one base give the same path only
/// where they are the same list.
pub proof fn lemma_joined_all_injective(base: Seq<char>, a: Seq<Seq<char>>, b: Seq<Seq<char>>)
    requires
        a.len() > 0,
        b.len() > 0,
        forall|k: int| 0 <= k < a.len() ==> valid_name(#[trigger] a[k]),
        forall|k: int| 0 <= k < b.len() ==> valid_name(#[trigger] b[k]),
        joined_all(base, a) == joined_all(base, b),
    ensures
        a == b,
{
    lemma_joined_all(base, a);
    lemma_joined_all(base, b);
    let front = stem(base);
    let pa = front + relative(a);
    let pb = front + relative(b);
    assert(relative(a) =~= pa.subrange(front.len() as int, pa.len() as int));
    assert(relative(b) =~= pb.subrange(front.len() as int, pb.len() as int));
    lemma_relative_injective(a, b);
}

} // verus!
