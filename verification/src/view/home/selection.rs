//! The category filter as a state machine over two sets of paths.

use vstd::prelude::*;
use crate::category_set::{has_kin, is_antichain, is_kin, without_kin, Kin};
use crate::metadata::InfoView;
use crate::symbolic_path::{
    first_component_of, is_child, is_descendant, lemma_parent_is_nearest_ancestor, parent_of,
    related,
};
use crate::text::is_substring;

verus! {

/// The categories that the reader asked for and those that the reader
/// excluded.
pub struct Selection {
    pub selected: Set<Seq<char>>,
    pub negated: Set<Seq<char>>,
}

/// One tap on a category label.
pub enum Toggle {
    Select(Seq<char>),
    Negate(Seq<char>),
}

impl Selection {
    /// Nothing asked for, nothing excluded.
    pub open spec fn empty() -> Selection {
        Selection { selected: Set::empty(), negated: Set::empty() }
    }

    /// The invariant of the filter: within each set no path lies below
    /// another, and no path is both selected and excluded.
    pub open spec fn coherent(self) -> bool {
        &&& is_antichain(self.selected)
        &&& is_antichain(self.negated)
        &&& forall|p: Seq<char>| !(#[trigger] self.selected.contains(p) && self.negated.contains(p))
    }

    /// A tap that selects: a selected path is given up; any other path
    /// replaces its selected relatives, lifts the exclusion of itself and of
    /// the paths below it, and becomes selected.
    pub open spec fn toggle_select(self, c: Seq<char>) -> Selection {
        if self.selected.contains(c) {
            Selection { selected: self.selected.remove(c), negated: self.negated }
        } else {
            Selection {
                selected: without_kin(self.selected, Kin::Relative, c).insert(c),
                negated: without_kin(self.negated, Kin::SelfOrDescendant, c),
            }
        }
    }

    /// A tap that excludes: an excluded path is let in again; any other path
    /// replaces its excluded relatives, drops itself and the paths below it
    /// from the selected ones, and becomes excluded.
    pub open spec fn toggle_negate(self, c: Seq<char>) -> Selection {
        if self.negated.contains(c) {
            Selection { selected: self.selected, negated: self.negated.remove(c) }
        } else {
            Selection {
                selected: without_kin(self.selected, Kin::SelfOrDescendant, c),
                negated: without_kin(self.negated, Kin::Relative, c).insert(c),
            }
        }
    }

    /// The state after one tap.
    pub open spec fn toggle(self, tap: Toggle) -> Selection {
        match tap {
            Toggle::Select(c) => self.toggle_select(c),
            Toggle::Negate(c) => self.toggle_negate(c),
        }
    }

    /// The state after a sequence of taps.
    pub open spec fn run(self, taps: Seq<Toggle>) -> Selection
        decreases taps.len(),
    {
        if taps.len() == 0 {
            self
        } else {
            self.run(taps.drop_last()).toggle(taps.last())
        }
    }

    /// The state after an excluding tap on each path of `kids`, a set of
    /// paths of which none lies below another: the excluded ones among them
    /// are let in again, the others become excluded as by `toggle_negate`.
    pub open spec fn negate_each(self, kids: Set<Seq<char>>) -> Selection {
        Selection {
            selected: self.selected.filter(
                |s: Seq<char>|
                    !exists|c: Seq<char>|
                        kids.contains(c) && !self.negated.contains(c) && #[trigger] is_kin(
                            Kin::SelfOrDescendant,
                            s,
                            c,
                        ),
            ),
            negated: self.negated.filter(
                |n: Seq<char>|
                    !kids.contains(n) && !exists|c: Seq<char>|
                        kids.contains(c) && !self.negated.contains(c) && #[trigger] related(n, c),
            ).union(kids.filter(|c: Seq<char>| !self.negated.contains(c))),
        }
    }
}

/// The paths of `visible` that lie one level below `parent`.
pub open spec fn children_of(visible: Set<Seq<char>>, parent: Seq<char>) -> Set<Seq<char>> {
    visible.filter(|c: Seq<char>| is_child(c, parent))
}

/// Whether the free-text query is empty or occurs in the title, the
/// subtitle, the author, a category or the file path of the entry.
pub open spec fn matches_query(info: InfoView, query: Seq<char>) -> bool {
    ||| query.len() == 0
    ||| is_substring(query, info.title)
    ||| is_substring(query, info.subtitle)
    ||| is_substring(query, info.author)
    ||| exists|c: Seq<char>| info.categories.contains(c) && is_substring(query, c)
    ||| is_substring(query, info.path)
}

/// Whether the entry has, for every selected path, a category that is the
/// path or lies below it.
pub open spec fn meets_selected(categories: Set<Seq<char>>, selected: Set<Seq<char>>) -> bool {
    ||| selected.subset_of(categories)
    ||| forall|s: Seq<char>|
        selected.contains(s) ==> #[trigger] has_kin(categories, Kin::SelfOrDescendant, s)
}

/// Whether none of the entry's categories is excluded or lies below an
/// excluded path.
pub open spec fn avoids_negated(categories: Set<Seq<char>>, negated: Set<Seq<char>>) -> bool {
    ||| negated == Set::<Seq<char>>::empty()
    ||| {
        &&& negated.disjoint(categories)
        &&& forall|c: Seq<char>, a: Seq<char>|
            #![trigger categories.contains(c), negated.contains(a)]
            categories.contains(c) && is_descendant(c, a) ==> !negated.contains(a)
    }
}

/// Whether the filter lets the entry through.
pub open spec fn is_visible(info: InfoView, query: Seq<char>, choice: Selection) -> bool {
    &&& matches_query(info, query)
    &&& meets_selected(info.categories, choice.selected)
    &&& avoids_negated(info.categories, choice.negated)
}

/// The entries that the filter lets through, in the order of the catalog.
pub open spec fn visible_entries(
    entries: Seq<InfoView>,
    query: Seq<char>,
    choice: Selection,
) -> Seq<InfoView> {
    entries.filter(|info: InfoView| is_visible(info, query, choice))
}

/// The label under which a category of a visible entry is listed: the
/// category itself where its parent is selected, else its top level.
pub open spec fn listed_as(c: Seq<char>, selected: Set<Seq<char>>) -> Seq<char> {
    if parent_of(c) is Some && selected.contains(parent_of(c)->0) {
        c
    } else {
        first_component_of(c)
    }
}

/// Whether `label` is listed whatever the entries hold: it is a selected or
/// an excluded path, or lies above one.
pub open spec fn is_forced(label: Seq<char>, choice: Selection) -> bool {
    exists|p: Seq<char>|
        (choice.selected.contains(p) || choice.negated.contains(p)) && #[trigger] is_kin(
            Kin::SelfOrAncestor,
            label,
            p,
        )
}

/// Whether `label` is what a category of one of the first `upto` entries is
/// listed as.
pub open spec fn is_listed(
    label: Seq<char>,
    entries: Seq<InfoView>,
    upto: int,
    selected: Set<Seq<char>>,
) -> bool {
    exists|i: int, c: Seq<char>|
        0 <= i < upto && i < entries.len() && #[trigger] entries[i].categories.contains(c)
            && listed_as(c, selected) == label
}

/// The labels of the category list.
pub open spec fn listed_categories(entries: Seq<InfoView>, choice: Selection) -> Set<Seq<char>> {
    Set::new(
        |label: Seq<char>|
            is_listed(label, entries, entries.len() as int, choice.selected) || is_forced(
                label,
                choice,
            ),
    )
}

/// The number of pages that `count` entries fill at `per_page` entries a
/// page: the full pages, and one more for what is left over. Without room
/// for an entry, any entry at all needs more pages than can be counted.
pub open spec fn pages_for(count: int, per_page: int) -> int {
    if per_page > 0 {
        count / per_page + if count % per_page == 0 {
            0int
        } else {
            1int
        }
    } else if count == 0 {
        0
    } else {
        usize::MAX as int
    }
}

/// A tap leaves a coherent filter coherent: afterwards no member of either
/// set lies below another member of that set, and no path is both selected
/// and excluded.
pub proof fn lemma_toggle_keeps_coherence(choice: Selection, tap: Toggle)
    requires
        choice.coherent(),
    ensures
        choice.toggle(tap).coherent(),
{
    let next = choice.toggle(tap);
    match tap {
        Toggle::Select(c) => {
            assert forall|p: Seq<char>| !(#[trigger] next.selected.contains(p)
                && next.negated.contains(p)) by {
                if next.selected.contains(p) && next.negated.contains(p) {
                    assert(choice.negated.contains(p));
                    if !choice.selected.contains(c) {
                        assert(!is_kin(Kin::SelfOrDescendant, p, c));
                        assert(choice.selected.contains(p));
                    } else {
                        assert(choice.selected.contains(p));
                    }
                }
            }
            assert forall|a: Seq<char>, b: Seq<char>|
                next.selected.contains(a) && next.selected.contains(b) implies !is_descendant(
                a,
                b,
            ) by {
                if !choice.selected.contains(c) {
                    if a != c {
                        assert(!is_kin(Kin::Relative, a, c));
                    }
                    if b != c {
                        assert(!is_kin(Kin::Relative, b, c));
                    }
                }
            }
        },
        Toggle::Negate(c) => {
            assert forall|p: Seq<char>| !(#[trigger] next.selected.contains(p)
                && next.negated.contains(p)) by {
                if next.selected.contains(p) && next.negated.contains(p) {
                    assert(choice.selected.contains(p));
                    if !choice.negated.contains(c) {
                        assert(!is_kin(Kin::SelfOrDescendant, p, c));
                        assert(choice.negated.contains(p));
                    } else {
                        assert(choice.negated.contains(p));
                    }
                }
            }
            assert forall|a: Seq<char>, b: Seq<char>|
                next.negated.contains(a) && next.negated.contains(b) implies !is_descendant(
                a,
                b,
            ) by {
                if !choice.negated.contains(c) {
                    if a != c {
                        assert(!is_kin(Kin::Relative, a, c));
                    }
                    if b != c {
                        assert(!is_kin(Kin::Relative, b, c));
                    }
                }
            }
        },
    }
}

/// Whatever the taps, a filter that started empty is coherent.
pub proof fn lemma_taps_keep_coherence(taps: Seq<Toggle>)
    ensures
        Selection::empty().run(taps).coherent(),
    decreases taps.len(),
{
    if taps.len() > 0 {
        lemma_taps_keep_coherence(taps.drop_last());
        lemma_toggle_keeps_coherence(Selection::empty().run(taps.drop_last()), taps.last());
    }
}

/// Two selecting taps on one path give back the selected set, provided that
/// no other selected path lies above or below the tapped one.
pub proof fn lemma_toggle_select_twice(choice: Selection, c: Seq<char>)
    requires
        forall|s: Seq<char>| choice.selected.contains(s) && s != c ==> !related(s, c),
    ensures
        choice.toggle_select(c).toggle_select(c).selected == choice.selected,
{
    let once = choice.toggle_select(c);
    let twice = once.toggle_select(c);
    assert forall|s: Seq<char>| twice.selected.contains(s) <==> choice.selected.contains(s) by {
        if s != c {
            assert(is_kin(Kin::Relative, s, c) == related(s, c));
        }
    }
    assert(twice.selected =~= choice.selected);
}

/// On a coherent filter, two selecting taps on a selected path give back
/// the selected set.
pub proof fn lemma_reselect_restores(choice: Selection, c: Seq<char>)
    requires
        choice.coherent(),
        choice.selected.contains(c),
    ensures
        choice.toggle_select(c).toggle_select(c).selected == choice.selected,
{
    lemma_toggle_select_twice(choice, c);
}

/// Two paths one level below the same path do not lie below one another.
pub proof fn lemma_siblings_unrelated(a: Seq<char>, b: Seq<char>, parent: Seq<char>)
    requires
        is_child(a, parent),
        is_child(b, parent),
    ensures
        !related(a, b),
{
    lemma_parent_is_nearest_ancestor(a);
    lemma_parent_is_nearest_ancestor(b);
}

/// An excluding tap on one more path of a set of paths, none of which lies
/// below another, gives what `negate_each` says of the larger set.
pub proof fn lemma_negate_one_more(choice: Selection, done: Set<Seq<char>>, c: Seq<char>)
    requires
        !done.contains(c),
        forall|d: Seq<char>| done.contains(d) ==> !related(d, c),
    ensures
        choice.negate_each(done).toggle_negate(c) == choice.negate_each(done.insert(c)),
{
    let before = choice.negate_each(done);
    let after = before.toggle_negate(c);
    let goal = choice.negate_each(done.insert(c));
    let more = done.insert(c);
    assert(before.negated.contains(c) == choice.negated.contains(c)) by {
        if choice.negated.contains(c) {
            assert forall|d: Seq<char>|
                done.contains(d) && !choice.negated.contains(d) implies !related(c, d) by {}
        }
    }
    assert forall|s: Seq<char>| after.selected.contains(s) <==> goal.selected.contains(s) by {
        if choice.selected.contains(s) {
            let hit_before = exists|d: Seq<char>|
                done.contains(d) && !choice.negated.contains(d) && #[trigger] is_kin(
                    Kin::SelfOrDescendant,
                    s,
                    d,
                );
            let hit_after = exists|d: Seq<char>|
                more.contains(d) && !choice.negated.contains(d) && #[trigger] is_kin(
                    Kin::SelfOrDescendant,
                    s,
                    d,
                );
            if hit_before {
                let d = choose|d: Seq<char>|
                    done.contains(d) && !choice.negated.contains(d) && #[trigger] is_kin(
                        Kin::SelfOrDescendant,
                        s,
                        d,
                    );
                assert(more.contains(d));
            }
            if hit_after && !hit_before {
                let d = choose|d: Seq<char>|
                    more.contains(d) && !choice.negated.contains(d) && #[trigger] is_kin(
                        Kin::SelfOrDescendant,
                        s,
                        d,
                    );
                assert(d == c);
            }
            if !choice.negated.contains(c) && is_kin(Kin::SelfOrDescendant, s, c) {
                assert(more.contains(c));
            }
        }
    }
    assert forall|n: Seq<char>| after.negated.contains(n) <==> goal.negated.contains(n) by {
        let hit_before = exists|d: Seq<char>|
            done.contains(d) && !choice.negated.contains(d) && #[trigger] related(n, d);
        let hit_after = exists|d: Seq<char>|
            more.contains(d) && !choice.negated.contains(d) && #[trigger] related(n, d);
        if hit_before {
            let d = choose|d: Seq<char>|
                done.contains(d) && !choice.negated.contains(d) && #[trigger] related(n, d);
            assert(more.contains(d));
        }
        if hit_after && !hit_before {
            let d = choose|d: Seq<char>|
                more.contains(d) && !choice.negated.contains(d) && #[trigger] related(n, d);
            assert(d == c);
        }
        if !choice.negated.contains(c) && related(n, c) {
            assert(more.contains(c));
        }
        assert(is_kin(Kin::Relative, n, c) == related(n, c));
    }
    assert(after.selected =~= goal.selected);
    assert(after.negated =~= goal.negated);
}

/// Excluding taps on no path at all change nothing.
pub proof fn lemma_negate_none(choice: Selection)
    ensures
        choice.negate_each(Set::empty()) == choice,
{
    let same = choice.negate_each(Set::empty());
    assert(same.selected =~= choice.selected);
    assert(same.negated =~= choice.negated);
}

} // verus!
