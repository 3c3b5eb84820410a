//! Hierarchical category paths: strings whose levels are joined by
//! [`PATH_SEPARATOR`], such as `fiction/sci-fi`.

use vstd::prelude::*;
use crate::text::{chars, same, slice_views};

verus! {

/// The character that joins the levels of a path.
pub const PATH_SEPARATOR: char = '/';

/// Whether `path` lies strictly below `other`: `other` is a proper prefix of
/// `path` that ends just before a separator.
pub open spec fn is_descendant(path: Seq<char>, other: Seq<char>) -> bool {
    &&& path.len() > other.len()
    &&& path.take(other.len() as int) == other
    &&& path[other.len() as int] == PATH_SEPARATOR
}

/// Whether one of the two paths lies strictly below the other.
pub open spec fn related(a: Seq<char>, b: Seq<char>) -> bool {
    is_descendant(a, b) || is_descendant(b, a)
}

/// The index of the last separator of `path`, or -1 where it has none.
pub open spec fn last_separator(path: Seq<char>) -> int
    decreases path.len(),
{
    if path.len() == 0 {
        -1
    } else if path.last() == PATH_SEPARATOR {
        path.len() - 1
    } else {
        last_separator(path.drop_last())
    }
}

/// The index of the first separator of `path` at or after `from`, or the
/// length of `path` where there is none.
pub open spec fn first_separator(path: Seq<char>, from: int) -> int
    decreases path.len() - from,
{
    if from < 0 || from >= path.len() {
        path.len() as int
    } else if path[from] == PATH_SEPARATOR {
        from
    } else {
        first_separator(path, from + 1)
    }
}

/// The path one level up: what stands before the last separator.
pub open spec fn parent_of(path: Seq<char>) -> Option<Seq<char>> {
    if last_separator(path) < 0 {
        None
    } else {
        Some(path.take(last_separator(path)))
    }
}

/// Whether `path` lies exactly one level below `other`.
pub open spec fn is_child(path: Seq<char>, other: Seq<char>) -> bool {
    parent_of(path) == Some(other)
}

/// The top level of `path`: what stands before its first separator.
pub open spec fn first_component_of(path: Seq<char>) -> Seq<char> {
    path.take(first_separator(path, 0))
}

/// The ancestors of `path` that end before position `below`, nearest first.
pub open spec fn ancestors_before(path: Seq<char>, below: int) -> Seq<Seq<char>>
    decreases below,
{
    if below <= 0 || below > path.len() {
        Seq::empty()
    } else if path[below - 1] == PATH_SEPARATOR {
        seq![path.take(below - 1)] + ancestors_before(path, below - 1)
    } else {
        ancestors_before(path, below - 1)
    }
}

/// Every ancestor of `path`, nearest first: its parent, then the parent's
/// parent, up to the top level.
pub open spec fn ancestors_of(path: Seq<char>) -> Seq<Seq<char>> {
    ancestors_before(path, path.len() as int)
}

/// `last_separator` points at a separator after which none follows.
pub proof fn lemma_last_separator(path: Seq<char>)
    ensures
        -1 <= last_separator(path) < path.len(),
        last_separator(path) >= 0 ==> path[last_separator(path)] == PATH_SEPARATOR,
        forall|j: int| last_separator(path) < j < path.len() ==> path[j] != PATH_SEPARATOR,
    decreases path.len(),
{
    if path.len() > 0 && path.last() != PATH_SEPARATOR {
        lemma_last_separator(path.drop_last());
        assert forall|j: int| last_separator(path) < j < path.len() implies path[j]
            != PATH_SEPARATOR by {
            if j < path.len() - 1 {
                assert(path.drop_last()[j] == path[j]);
            }
        }
    }
}

/// The ancestors that end before `below` are exactly the paths that `path`
/// descends from and that are shorter than `below`.
pub proof fn lemma_ancestors_before(path: Seq<char>, below: int, a: Seq<char>)
    requires
        0 <= below <= path.len(),
    ensures
        ancestors_before(path, below).contains(a) <==> is_descendant(path, a) && a.len() < below,
    decreases below,
{
    if below > 0 {
        lemma_ancestors_before(path, below - 1, a);
        let rest = ancestors_before(path, below - 1);
        if path[below - 1] == PATH_SEPARATOR {
            let head = seq![path.take(below - 1)];
            assert(head[0] == path.take(below - 1));
            if a == path.take(below - 1) {
                assert((head + rest)[0] == a);
            }
            if (head + rest).contains(a) {
                let i = choose|i: int| 0 <= i < (head + rest).len() && (head + rest)[i] == a;
                if i > 0 {
                    assert(rest[i - 1] == a);
                }
            }
            if rest.contains(a) {
                let i = choose|i: int| 0 <= i < rest.len() && rest[i] == a;
                assert((head + rest)[i + 1] == a);
            }
        }
    }
}

/// A path is an ancestor of `path` exactly when `path` descends from it.
pub proof fn lemma_ancestors_are_what_it_descends_from(path: Seq<char>, a: Seq<char>)
    ensures
        ancestors_of(path).contains(a) <==> is_descendant(path, a),
{
    lemma_ancestors_before(path, path.len() as int, a);
}

/// A path descends from its parent, and from nothing longer.
pub proof fn lemma_parent_is_nearest_ancestor(path: Seq<char>)
    ensures
        parent_of(path) matches Some(p) ==> is_descendant(path, p),
        parent_of(path) is None ==> forall|a: Seq<char>| !is_descendant(path, a),
        forall|a: Seq<char>| #[trigger]
            is_descendant(path, a) ==> parent_of(path) is Some && a.len()
                <= parent_of(path)->0.len(),
{
    lemma_last_separator(path);
}

/// Whether `path` lies strictly below `other`.
pub fn is_descendant_of(path: &str, other: &str) -> (b: bool)
    ensures
        b == is_descendant(path@, other@),
{
    let p = chars(path);
    let o = chars(other);
    if p.len() <= o.len() {
        return false;
    }
    let mut i: usize = 0;
    while i < o.len()
        invariant
            i <= o.len() < p.len(),
            p@ == path@,
            o@ == other@,
            forall|j: int| 0 <= j < i ==> p[j] == o[j],
        decreases o.len() - i,
    {
        if p[i] != o[i] {
            assert(p@.take(o.len() as int)[i as int] != o[i as int]);
            return false;
        }
        i = i + 1;
    }
    assert(p@.take(o.len() as int) =~= o@);
    p[o.len()] == PATH_SEPARATOR
}

/// The path one level up, or `None` for a top-level path.
pub fn parent<'a>(path: &'a str) -> (up: Option<&'a str>)
    ensures
        up is Some == parent_of(path@) is Some,
        up matches Some(p) ==> p@ == parent_of(path@)->0,
{
    let p = chars(path);
    let mut i: usize = p.len();
    assert(p@.take(i as int) == p@);
    while i > 0
        invariant
            i <= p.len(),
            p@ == path@,
            last_separator(p@) == last_separator(p@.take(i as int)),
        decreases i,
    {
        if p[i - 1] == PATH_SEPARATOR {
            return Some(path.substring_char(0, i - 1));
        }
        assert(p@.take(i as int).drop_last() == p@.take(i - 1));
        i = i - 1;
    }
    None
}

/// Whether `path` lies exactly one level below `other`.
pub fn is_child_of(path: &str, other: &str) -> (b: bool)
    ensures
        b == is_child(path@, other@),
{
    match parent(path) {
        Some(up) => same(up, other),
        None => false,
    }
}

/// The top level of `path`.
pub fn first_component<'a>(path: &'a str) -> (top: &'a str)
    ensures
        top@ == first_component_of(path@),
{
    let p = chars(path);
    let mut i: usize = 0;
    while i < p.len()
        invariant
            i <= p.len(),
            p@ == path@,
            first_separator(p@, 0) == first_separator(p@, i as int),
        decreases p.len() - i,
    {
        if p[i] == PATH_SEPARATOR {
            return path.substring_char(0, i);
        }
        i = i + 1;
    }
    path.substring_char(0, i)
}

/// Every ancestor of `path`, nearest first.
pub fn ancestors<'a>(path: &'a str) -> (up: Vec<&'a str>)
    ensures
        slice_views(up@) == ancestors_of(path@),
{
    let p = chars(path);
    let mut up: Vec<&'a str> = Vec::new();
    let mut i: usize = p.len();
    while i > 0
        invariant
            i <= p.len(),
            p@ == path@,
            slice_views(up@) + ancestors_before(p@, i as int) == ancestors_of(p@),
        decreases i,
    {
        if p[i - 1] == PATH_SEPARATOR {
            let a = path.substring_char(0, i - 1);
            proof {
                assert(slice_views(up@.push(a)) =~= slice_views(up@) + seq![p@.take(i - 1)]);
                assert((slice_views(up@) + seq![p@.take(i - 1)]) + ancestors_before(
                    p@,
                    i - 1,
                ) =~= slice_views(up@) + ancestors_before(p@, i as int));
            }
            up.push(a);
        }
        i = i - 1;
    }
    assert(slice_views(up@) + ancestors_before(p@, 0) =~= slice_views(up@));
    up
}

} // verus!
