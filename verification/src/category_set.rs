//! Sets of category paths.

use vstd::prelude::*;
use crate::symbolic_path::{is_descendant, is_descendant_of, related};
use crate::text::{chars, contains_chars, is_substring, same, views};

verus! {

/// A way in which a path can stand to a given path.
#[derive(Clone, Copy, Debug, PartialEq, Eq, Structural)]
pub enum Kin {
    /// The path lies above or below the given path.
    Relative,
    /// The path is the given path or lies above it.
    SelfOrAncestor,
    /// The path is the given path or lies below it.
    SelfOrDescendant,
}

/// Whether `path` stands to `to` in the way that `kin` names.
pub open spec fn is_kin(kin: Kin, path: Seq<char>, to: Seq<char>) -> bool {
    match kin {
        Kin::Relative => related(path, to),
        Kin::SelfOrAncestor => path == to || is_descendant(to, path),
        Kin::SelfOrDescendant => path == to || is_descendant(path, to),
    }
}

/// Whether some path of `set` stands to `to` in the way that `kin` names.
pub open spec fn has_kin(set: Set<Seq<char>>, kin: Kin, to: Seq<char>) -> bool {
    exists|p: Seq<char>| set.contains(p) && #[trigger] is_kin(kin, p, to)
}

/// What stays of `set` once every path that stands to `to` as `kin` says has
/// left it.
pub open spec fn without_kin(set: Set<Seq<char>>, kin: Kin, to: Seq<char>) -> Set<Seq<char>> {
    set.filter(|p: Seq<char>| !is_kin(kin, p, to))
}

/// Whether no member of `set` lies below another member.
pub open spec fn is_antichain(set: Set<Seq<char>>) -> bool {
    forall|a: Seq<char>, b: Seq<char>|
        #![trigger set.contains(a), set.contains(b)]
        set.contains(a) && set.contains(b) ==> !is_descendant(a, b)
}

/// Whether `path` stands to `to` in the way that `kin` names.
pub fn stands_as(kin: Kin, path: &str, to: &str) -> (b: bool)
    ensures
        b == is_kin(kin, path@, to@),
{
    match kin {
        Kin::Relative => is_descendant_of(path, to) || is_descendant_of(to, path),
        Kin::SelfOrAncestor => same(path, to) || is_descendant_of(to, path),
        Kin::SelfOrDescendant => same(path, to) || is_descendant_of(path, to),
    }
}

/// A finite set of category paths. It holds each path once, in the order in
/// which the paths came.
#[derive(Debug)]
pub struct CategorySet {
    paths: Vec<String>,
}

impl View for CategorySet {
    type V = Set<Seq<char>>;

    closed spec fn view(&self) -> Set<Seq<char>> {
        views(self.paths@).to_set()
    }
}

impl CategorySet {
    #[verifier::type_invariant]
    spec fn distinct(&self) -> bool {
        views(self.paths@).no_duplicates()
    }

    /// The paths of the set in the order in which they came.
    pub closed spec fn order(&self) -> Seq<Seq<char>> {
        views(self.paths@)
    }

    /// The order lists every member once.
    proof fn lemma_order(&self)
        requires
            self.distinct(),
        ensures
            self.order().no_duplicates(),
            self.order().to_set() == self@,
            self@.finite(),
            self@.len() == self.order().len(),
    {
        views(self.paths@).unique_seq_to_set();
        vstd::seq_lib::seq_to_set_is_finite(views(self.paths@));
    }

    /// The empty set.
    pub fn new() -> (set: CategorySet)
        ensures
            set@ == Set::<Seq<char>>::empty(),
            set.order() == Seq::<Seq<char>>::empty(),
    {
        let set = CategorySet { paths: Vec::new() };
        assert(views(set.paths@) =~= Seq::<Seq<char>>::empty());
        assert(views(set.paths@).to_set() =~= Set::<Seq<char>>::empty());
        set
    }

    /// The number of paths in the set.
    pub fn len(&self) -> (n: usize)
        ensures
            n == self@.len(),
            n == self.order().len(),
            self@.finite(),
            self.order().no_duplicates(),
            self.order().to_set() == self@,
    {
        proof {
            use_type_invariant(self);
            self.lemma_order();
        }
        self.paths.len()
    }

    /// Whether the set holds no path.
    pub fn is_empty(&self) -> (b: bool)
        ensures
            b == (self@ == Set::<Seq<char>>::empty()),
    {
        proof {
            use_type_invariant(self);
            self.lemma_order();
            if self.paths.len() > 0 {
                assert(self.order().contains(self.order()[0]));
            } else {
                assert(self@ =~= Set::<Seq<char>>::empty());
            }
        }
        self.paths.len() == 0
    }

    /// The position of `path` in the order, if the set holds it.
    fn position(&self, path: &str) -> (at: Option<usize>)
        ensures
            at matches Some(i) ==> i < self.paths.len() && self.paths[i as int]@ == path@,
            at is None ==> !self@.contains(path@),
            at is Some == self@.contains(path@),
    {
        let mut i: usize = 0;
        while i < self.paths.len()
            invariant
                i <= self.paths.len(),
                forall|j: int| 0 <= j < i ==> self.paths[j]@ != path@,
            decreases self.paths.len() - i,
        {
            if same(self.paths[i].as_str(), path) {
                assert(views(self.paths@)[i as int] == path@);
                return Some(i);
            }
            i = i + 1;
        }
        None
    }

    /// Whether the set holds `path`.
    pub fn contains(&self, path: &str) -> (b: bool)
        ensures
            b == self@.contains(path@),
    {
        self.position(path).is_some()
    }

    /// The path at position `i` of the order.
    pub fn get(&self, i: usize) -> (path: &String)
        requires
            i < self.order().len(),
        ensures
            path@ == self.order()[i as int],
            self@.contains(path@),
    {
        assert(views(self.paths@)[i as int] == self.paths[i as int]@);
        &self.paths[i]
    }

    /// Adds `path` to the set; returns whether the set did not hold it yet.
    pub fn insert(&mut self, path: &str) -> (fresh: bool)
        ensures
            final(self)@ == old(self)@.insert(path@),
            fresh == !old(self)@.contains(path@),
            final(self).order() == if fresh {
                old(self).order().push(path@)
            } else {
                old(self).order()
            },
    {
        proof {
            use_type_invariant(&*self);
        }
        if self.contains(path) {
            assert(self@.insert(path@) =~= self@);
            false
        } else {
            let ghost before = views(self.paths@);
            let owned = path.to_owned();
            let mut paths: Vec<String> = Vec::new();
            std::mem::swap(&mut self.paths, &mut paths);
            paths.push(owned);
            proof {
                assert(views(paths@) =~= before.push(path@));
                before.lemma_push_to_set_commute(path@);
                assert forall|i: int, j: int|
                    0 <= i < before.len() + 1 && 0 <= j < before.len() + 1 && i != j implies before.push(
                    path@,
                )[i] != before.push(path@)[j] by {
                    if i < before.len() {
                        assert(before.contains(before[i]));
                    }
                    if j < before.len() {
                        assert(before.contains(before[j]));
                    }
                }
            }
            std::mem::swap(&mut self.paths, &mut paths);
            true
        }
    }

    /// Takes `path` out of the set; returns whether the set held it.
    pub fn remove(&mut self, path: &str) -> (held: bool)
        ensures
            final(self)@ == old(self)@.remove(path@),
            held == old(self)@.contains(path@),
    {
        proof {
            use_type_invariant(&*self);
        }
        match self.position(path) {
            Some(i) => {
                let ghost before = views(self.paths@);
                let mut paths: Vec<String> = Vec::new();
                std::mem::swap(&mut self.paths, &mut paths);
                paths.remove(i);
                proof {
                    let after = views(paths@);
                    assert(after =~= before.remove(i as int));
                    assert forall|p: Seq<char>| after.to_set().contains(p) <==> before.to_set().remove(
                        path@,
                    ).contains(p) by {
                        assert(before[i as int] == path@);
                        if after.contains(p) {
                            let k = choose|k: int| 0 <= k < after.len() && after[k] == p;
                            if k < i {
                                assert(before[k] == p);
                            } else {
                                assert(before[k + 1] == p);
                            }
                            assert(before.contains(p));
                            assert(p != path@);
                        }
                        if before.contains(p) && p != path@ {
                            let k = choose|k: int| 0 <= k < before.len() && before[k] == p;
                            if k < i {
                                assert(after[k] == p);
                            } else {
                                assert(after[k - 1] == p);
                            }
                        }
                    }
                    assert(after.to_set() =~= before.to_set().remove(path@));
                }
                std::mem::swap(&mut self.paths, &mut paths);
                true
            },
            None => {
                assert(self@.remove(path@) =~= self@);
                false
            },
        }
    }

    /// The set without the paths that stand to `to` as `kin` says.
    pub fn without(&self, kin: Kin, to: &str) -> (rest: CategorySet)
        ensures
            rest@ == without_kin(self@, kin, to@),
    {
        proof {
            use_type_invariant(self);
        }
        let mut kept: Vec<String> = Vec::new();
        let mut i: usize = 0;
        while i < self.paths.len()
            invariant
                i <= self.paths.len(),
                views(self.paths@).no_duplicates(),
                views(kept@).no_duplicates(),
                forall|p: Seq<char>| #[trigger]
                    views(kept@).contains(p) <==> (exists|j: int|
                        0 <= j < i && self.paths[j]@ == p && !is_kin(kin, p, to@)),
            decreases self.paths.len() - i,
        {
            let ghost before = views(kept@);
            if !stands_as(kin, self.paths[i].as_str(), to) {
                let copy = self.paths[i].clone();
                kept.push(copy);
                proof {
                    let now = views(kept@);
                    let fresh = self.paths[i as int]@;
                    assert(now =~= before.push(fresh));
                    assert(views(self.paths@)[i as int] == fresh);
                    assert forall|p: Seq<char>| #[trigger]
                        now.contains(p) <==> (exists|j: int|
                            0 <= j < i + 1 && self.paths[j]@ == p && !is_kin(kin, p, to@)) by {
                        if now.contains(p) {
                            let k = choose|k: int| 0 <= k < now.len() && now[k] == p;
                            if k < before.len() {
                                assert(before.contains(p));
                            }
                        }
                        if exists|j: int|
                            0 <= j < i + 1 && self.paths[j]@ == p && !is_kin(kin, p, to@) {
                            let j = choose|j: int|
                                0 <= j < i + 1 && self.paths[j]@ == p && !is_kin(kin, p, to@);
                            if j < i {
                                assert(before.contains(p));
                                let k = choose|k: int| 0 <= k < before.len() && before[k] == p;
                                assert(now[k] == p);
                            } else {
                                assert(now[before.len() as int] == p);
                            }
                        }
                    }
                    assert forall|a: int, b: int|
                        0 <= a < now.len() && 0 <= b < now.len() && a != b implies now[a]
                        != now[b] by {
                        if a == before.len() && b < before.len() {
                            assert(before.contains(before[b]));
                            let j = choose|j: int| 0 <= j < i && self.paths[j]@ == before[b];
                            assert(views(self.paths@)[j] == before[b]);
                        }
                        if b == before.len() && a < before.len() {
                            assert(before.contains(before[a]));
                            let j = choose|j: int| 0 <= j < i && self.paths[j]@ == before[a];
                            assert(views(self.paths@)[j] == before[a]);
                        }
                    }
                }
            }
            i = i + 1;
        }
        let rest = CategorySet { paths: kept };
        proof {
            assert forall|p: Seq<char>| rest@.contains(p) <==> without_kin(self@, kin, to@).contains(
                p,
            ) by {
                if views(kept@).contains(p) {
                    let j = choose|j: int|
                        0 <= j < i && self.paths[j]@ == p && !is_kin(kin, p, to@);
                    assert(views(self.paths@)[j] == p);
                }
                if views(self.paths@).contains(p) && !is_kin(kin, p, to@) {
                    let j = choose|j: int|
                        0 <= j < self.paths.len() && views(self.paths@)[j] == p;
                    assert(self.paths[j]@ == p);
                }
            }
            assert(rest@ =~= without_kin(self@, kin, to@));
        }
        rest
    }

    /// Whether some path of the set stands to `to` as `kin` says.
    pub fn any_kin(&self, kin: Kin, to: &str) -> (b: bool)
        ensures
            b == has_kin(self@, kin, to@),
    {
        let mut i: usize = 0;
        while i < self.paths.len()
            invariant
                i <= self.paths.len(),
                forall|j: int| 0 <= j < i ==> !is_kin(kin, #[trigger] self.paths[j]@, to@),
            decreases self.paths.len() - i,
        {
            if stands_as(kin, self.paths[i].as_str(), to) {
                assert(views(self.paths@)[i as int] == self.paths[i as int]@);
                assert(self@.contains(self.paths[i as int]@));
                return true;
            }
            i = i + 1;
        }
        proof {
            assert forall|p: Seq<char>| self@.contains(p) implies !#[trigger] is_kin(kin, p, to@) by {
                let j = choose|j: int| 0 <= j < self.paths.len() && views(self.paths@)[j] == p;
                assert(self.paths[j]@ == p);
            }
        }
        false
    }

    /// Whether `needle` occurs in some path of the set.
    pub fn any_containing(&self, needle: &str) -> (b: bool)
        ensures
            b == exists|p: Seq<char>| self@.contains(p) && #[trigger] is_substring(needle@, p),
    {
        let n = chars(needle);
        let mut i: usize = 0;
        while i < self.paths.len()
            invariant
                i <= self.paths.len(),
                n@ == needle@,
                forall|j: int| 0 <= j < i ==> !is_substring(needle@, #[trigger] self.paths[j]@),
            decreases self.paths.len() - i,
        {
            let hay = chars(self.paths[i].as_str());
            if contains_chars(&hay, &n) {
                assert(views(self.paths@)[i as int] == self.paths[i as int]@);
                assert(self@.contains(self.paths[i as int]@));
                return true;
            }
            i = i + 1;
        }
        proof {
            assert forall|p: Seq<char>| self@.contains(p) implies !#[trigger] is_substring(
                needle@,
                p,
            ) by {
                let j = choose|j: int| 0 <= j < self.paths.len() && views(self.paths@)[j] == p;
                assert(self.paths[j]@ == p);
            }
        }
        false
    }

    /// The paths of the set, in order.
    pub fn to_vec(&self) -> (list: Vec<String>)
        ensures
            views(list@) == self.order(),
    {
        let mut list: Vec<String> = Vec::new();
        let mut i: usize = 0;
        while i < self.paths.len()
            invariant
                i <= self.paths.len(),
                views(list@) == views(self.paths@).take(i as int),
            decreases self.paths.len() - i,
        {
            let copy = self.paths[i].clone();
            proof {
                assert(copy@ == self.paths[i as int]@);
                assert(views(self.paths@).take(i + 1) =~= views(self.paths@).take(i as int).push(
                    self.paths[i as int]@,
                ));
                assert(views(list@.push(copy)) =~= views(list@).push(copy@));
            }
            list.push(copy);
            i = i + 1;
        }
        assert(views(self.paths@).take(i as int) =~= views(self.paths@));
        list
    }
}

impl Clone for CategorySet {
    fn clone(&self) -> (copy: CategorySet)
        ensures
            copy@ == self@,
            copy.order() == self.order(),
    {
        proof {
            use_type_invariant(self);
        }
        let paths = self.to_vec();
        CategorySet { paths }
    }
}

} // verus!
