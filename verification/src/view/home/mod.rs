//! The library browser: a filtered, paginated list of the catalog.

pub mod selection;
pub mod top_bar;

use vstd::prelude::*;
use crate::category_set::{has_kin, is_kin, CategorySet, Kin};
use crate::geom::{CycleDir, Rectangle};
use crate::metadata::{info_views, Info, InfoView, Metadata, SortMethod};
use crate::symbolic_path::{
    ancestors, ancestors_of, first_component, is_child_of, lemma_ancestors_are_what_it_descends_from,
    parent,
};
use crate::text::{chars, contains_chars, slice_views, views};
use crate::view::home::selection::{
    avoids_negated, children_of, is_forced, is_listed, is_visible, lemma_negate_none,
    lemma_negate_one_more, lemma_siblings_unrelated, lemma_toggle_keeps_coherence, listed_as,
    listed_categories, matches_query, meets_selected, pages_for, visible_entries, Selection,
    Toggle,
};
use crate::framebuffer::UpdateMode;
use crate::view::{EntryId, EntryKind, Event, Hub, Toggled, ViewId};

verus! {

/// What the browser shows and how it got there.
pub struct HomeView {
    /// The part of the screen that the browser takes.
    pub rect: Rectangle,
    /// The page of the list that is shown, counted from zero.
    pub current_page: usize,
    /// The number of pages of the list.
    pub pages_count: usize,
    /// The view that receives the keys of the keyboard.
    pub focus: Option<ViewId>,
    /// The free-text query.
    pub query: Seq<char>,
    /// The height of the category list, in lines.
    pub summary_size: u8,
    pub sort_method: SortMethod,
    pub reverse_order: bool,
    /// The entries that the filter lets through.
    pub visible_books: Seq<InfoView>,
    /// The labels of the category list.
    pub visible_categories: Set<Seq<char>>,
    /// The selected and the excluded categories.
    pub choice: Selection,
}

/// The state of the library browser.
#[derive(Debug)]
pub struct Home {
    rect: Rectangle,
    current_page: usize,
    pages_count: usize,
    focus: Option<ViewId>,
    query: String,
    summary_size: u8,
    sort_method: SortMethod,
    reverse_order: bool,
    visible_books: Metadata,
    visible_categories: CategorySet,
    selected_categories: CategorySet,
    negated_categories: CategorySet,
}

impl View for Home {
    type V = HomeView;

    closed spec fn view(&self) -> HomeView {
        HomeView {
            rect: self.rect,
            current_page: self.current_page,
            pages_count: self.pages_count,
            focus: self.focus,
            query: self.query@,
            summary_size: self.summary_size,
            sort_method: self.sort_method,
            reverse_order: self.reverse_order,
            visible_books: info_views(self.visible_books@),
            visible_categories: self.visible_categories@,
            choice: Selection {
                selected: self.selected_categories@,
                negated: self.negated_categories@,
            },
        }
    }
}

/// The catalog entries and the category labels that a query and a choice of
/// categories leave visible.
pub open spec fn filtered(
    entries: Seq<InfoView>,
    query: Seq<char>,
    choice: Selection,
) -> (Seq<InfoView>, Set<Seq<char>>) {
    let visible = visible_entries(entries, query, choice);
    (visible, listed_categories(visible, choice))
}

/// What is left to do around the browser once it has dealt with an event:
/// the widgets that show its state belong to the application.
#[derive(Debug, Clone, Copy, PartialEq, Eq, Structural)]
pub enum Layout {
    Nothing,
    /// Show or hide the keyboard.
    Keyboard(bool),
    /// Show or hide the page dialog: `None` to switch.
    GoToPage(Option<bool>),
    /// What became of the search bar, and whether the keyboard is to go
    /// with it.
    SearchBar(Toggled, bool),
    SortMenu(Rectangle, Option<bool>),
    MainMenu(Rectangle, Option<bool>),
    MatchesMenu(Rectangle, Option<bool>),
    /// Move the lower edge of the category list.
    ResizeSummary(i32),
    /// Sort the catalog and the visible entries anew.
    Sort,
    /// Write the visible entries to a file.
    ExportMatches,
    /// Sort anew and paint the whole browser.
    Reseed,
}

/// What the widgets that show the list have to take up.
#[derive(Debug, Clone, Copy, PartialEq, Eq, Structural)]
pub enum Refresh {
    Nothing,
    /// The current page changed.
    Page,
    /// The list and the category list changed.
    List,
}

/// The answer of the browser to an event.
#[derive(Debug, Clone, Copy, PartialEq, Eq, Structural)]
pub struct Answer {
    pub captured: bool,
    pub layout: Layout,
    pub refresh: Refresh,
}

/// The browser after `refresh_visibles`.
pub open spec fn refreshed(
    home: HomeView,
    entries: Seq<InfoView>,
    max_lines: usize,
    reset_page: bool,
) -> HomeView {
    let visible = filtered(entries, home.query, home.choice);
    let pages = pages_for(visible.0.len() as int, max_lines as int) as usize;
    HomeView {
        visible_books: visible.0,
        visible_categories: visible.1,
        pages_count: pages,
        current_page: page_within(home.current_page, pages, reset_page),
        ..home
    }
}

/// The browser, what it sends to the hub, what became of the search bar and
/// whether the keyboard is to go with it, when the search bar is asked to
/// show (`Some(true)`), to hide (`Some(false)`) or to switch (`None`) while
/// it is on the screen or not, as `shown` tells. A search bar that goes takes
/// the query with it, and the focus if it had it; one that comes gets the
/// focus, and says so on the hub.
pub open spec fn search_bar_toggled(home: HomeView, enable: Option<bool>, shown: bool) -> (
    HomeView,
    Seq<Event>,
    Toggled,
    bool,
) {
    if shown {
        if enable == Some(true) {
            (home, Seq::empty(), Toggled::Unchanged, false)
        } else {
            (
                HomeView {
                    focus: if home.focus == Some(ViewId::SearchInput) {
                        None
                    } else {
                        home.focus
                    },
                    query: Seq::empty(),
                    ..home
                },
                Seq::empty(),
                Toggled::Closed,
                home.focus == Some(ViewId::SearchInput),
            )
        }
    } else if enable == Some(false) {
        (home, Seq::empty(), Toggled::Unchanged, false)
    } else {
        (
            HomeView { focus: Some(ViewId::SearchInput), ..home },
            seq![Event::Focus(Some(ViewId::SearchInput))],
            Toggled::Wanted,
            false,
        )
    }
}

/// The browser after an event, its answer, and what it sends to the hub;
/// `search_shown` tells whether the search bar is on the screen.
///
/// A tap on a category changes the choice of categories, a submitted query
/// replaces the query, and the list is computed anew from its first page; so
/// it is when the search bar is closed. A page is turned, or gone to, if the
/// list has it. The other events of the browser leave its state alone, but
/// for the focus and the sort order, and ask for a change of the layout. Any
/// other event is not captured.
pub open spec fn reaction(
    home: HomeView,
    evt: Event,
    entries: Seq<InfoView>,
    max_lines: usize,
    search_shown: bool,
) -> (HomeView, Answer, Seq<Event>) {
    match evt {
        Event::Focus(v) => (
            HomeView { focus: v, ..home },
            Answer { captured: false, layout: Layout::Keyboard(true), refresh: Refresh::Nothing },
            Seq::empty(),
        ),
        Event::Show(ViewId::Keyboard) => (home, asks(Layout::Keyboard(true)), Seq::empty()),
        Event::Toggle(ViewId::GoToPage) => (home, asks(Layout::GoToPage(None)), Seq::empty()),
        Event::Toggle(ViewId::SearchBar) => (
            search_bar_toggled(home, None, search_shown).0,
            asks(
                Layout::SearchBar(
                    search_bar_toggled(home, None, search_shown).2,
                    search_bar_toggled(home, None, search_shown).3,
                ),
            ),
            search_bar_toggled(home, None, search_shown).1,
        ),
        Event::ToggleNear(ViewId::SortMenu, rect) => (
            home,
            asks(Layout::SortMenu(rect, None)),
            Seq::empty(),
        ),
        Event::ToggleNear(ViewId::MainMenu, rect) => (
            home,
            asks(Layout::MainMenu(rect, None)),
            Seq::empty(),
        ),
        Event::ToggleNear(ViewId::MatchesMenu, rect) => (
            home,
            asks(Layout::MatchesMenu(rect, None)),
            Seq::empty(),
        ),
        Event::Close(ViewId::SearchBar) => (
            refreshed(
                search_bar_toggled(home, Some(false), search_shown).0,
                entries,
                max_lines,
                true,
            ),
            Answer {
                captured: true,
                layout: Layout::SearchBar(
                    search_bar_toggled(home, Some(false), search_shown).2,
                    search_bar_toggled(home, Some(false), search_shown).3,
                ),
                refresh: Refresh::List,
            },
            search_bar_toggled(home, Some(false), search_shown).1,
        ),
        Event::Close(ViewId::SortMenu) => (
            home,
            asks(Layout::SortMenu(Rectangle::default_spec(), Some(false))),
            Seq::empty(),
        ),
        Event::Close(ViewId::MatchesMenu) => (
            home,
            asks(Layout::MatchesMenu(Rectangle::default_spec(), Some(false))),
            Seq::empty(),
        ),
        Event::Close(ViewId::MainMenu) => (
            home,
            asks(Layout::MainMenu(Rectangle::default_spec(), Some(false))),
            Seq::empty(),
        ),
        Event::Close(ViewId::GoToPage) => (
            home,
            asks(Layout::GoToPage(Some(false))),
            Seq::empty(),
        ),
        Event::Select(EntryId::Sort(sort_method)) => (
            HomeView { sort_method, reverse_order: sort_method.reverse_order(), ..home },
            asks(Layout::Sort),
            Seq::empty(),
        ),
        Event::Select(EntryId::ReverseOrder) => (
            HomeView { reverse_order: !home.reverse_order, ..home },
            asks(Layout::Sort),
            Seq::empty(),
        ),
        Event::Select(EntryId::ExportMatches) => (
            home,
            asks(Layout::ExportMatches),
            Seq::empty(),
        ),
        Event::Submit(ViewId::SearchInput, query) => (
            refreshed(HomeView { query: query@, ..home }, entries, max_lines, true),
            Answer { captured: true, layout: Layout::Keyboard(false), refresh: Refresh::List },
            Seq::empty(),
        ),
        Event::ResizeSummary(delta_y) => (
            home,
            asks(Layout::ResizeSummary(delta_y)),
            Seq::empty(),
        ),
        Event::ToggleSelectCategory(categ) => (
            refreshed(
                HomeView { choice: home.choice.toggle_select(categ@), ..home },
                entries,
                max_lines,
                true,
            ),
            shows_list(),
            Seq::empty(),
        ),
        Event::ToggleNegateCategory(categ) => (
            refreshed(
                HomeView { choice: home.choice.toggle_negate(categ@), ..home },
                entries,
                max_lines,
                true,
            ),
            shows_list(),
            Seq::empty(),
        ),
        Event::ToggleNegateCategoryChildren(categ) => (
            refreshed(
                HomeView {
                    choice: home.choice.negate_each(children_of(home.visible_categories, categ@)),
                    ..home
                },
                entries,
                max_lines,
                true,
            ),
            shows_list(),
            Seq::empty(),
        ),
        Event::GoTo(index) => if index < home.pages_count {
            (HomeView { current_page: index, ..home }, turns_page(), Seq::empty())
        } else {
            (home, asks(Layout::Nothing), Seq::empty())
        },
        Event::Page(CycleDir::Next) => if home.current_page + 1 < home.pages_count {
            (
                HomeView { current_page: (home.current_page + 1) as usize, ..home },
                turns_page(),
                Seq::empty(),
            )
        } else {
            (home, asks(Layout::Nothing), Seq::empty())
        },
        Event::Page(CycleDir::Previous) => if home.current_page > 0 {
            (
                HomeView { current_page: (home.current_page - 1) as usize, ..home },
                turns_page(),
                Seq::empty(),
            )
        } else {
            (home, asks(Layout::Nothing), Seq::empty())
        },
        Event::Back => (
            refreshed(home, entries, max_lines, false),
            Answer { captured: true, layout: Layout::Reseed, refresh: Refresh::List },
            Seq::empty(),
        ),
        _ => (
            home,
            Answer { captured: false, layout: Layout::Nothing, refresh: Refresh::Nothing },
            Seq::empty(),
        ),
    }
}

/// The answer to an event that is captured and asks for a change of the
/// layout only.
pub open spec fn asks(layout: Layout) -> Answer {
    Answer { captured: true, layout, refresh: Refresh::Nothing }
}

/// The answer to an event that is captured and changes the list.
pub open spec fn shows_list() -> Answer {
    Answer { captured: true, layout: Layout::Nothing, refresh: Refresh::List }
}

/// The answer to an event that is captured and changes the current page.
pub open spec fn turns_page() -> Answer {
    Answer { captured: true, layout: Layout::Nothing, refresh: Refresh::Page }
}

/// The number of lines that the category list takes of the `lines` lines of
/// the screen when `wanted` lines are asked for: one at least, and no more
/// than the lines of the screen, counted in eight bits.
pub open spec fn summary_lines(wanted: u8, lines: usize) -> u8 {
    let at_least_one = if wanted < 1 {
        1u8
    } else {
        wanted
    };
    if at_least_one > lines % 256 {
        (lines % 256) as u8
    } else {
        at_least_one
    }
}

/// The number of entries on a page when the category list has taken its
/// lines.
pub open spec fn shelf_lines(wanted: u8, lines: usize) -> usize {
    (lines - summary_lines(wanted, lines) + 1) as usize
}

/// The page that stays current when the list has `pages` pages.
pub open spec fn page_within(current: usize, pages: usize, reset: bool) -> usize {
    if reset {
        0
    } else if current >= pages {
        if pages > 0 {
            (pages - 1) as usize
        } else {
            0
        }
    } else {
        current
    }
}

/// The number of pages that `count` entries fill at `per_page` entries a
/// page.
pub fn pages(count: usize, per_page: usize) -> (n: usize)
    ensures
        n == pages_for(count as int, per_page as int),
{
    if per_page > 0 {
        let full: usize = count / per_page;
        if count % per_page == 0 {
            full
        } else {
            assert(full < count) by (nonlinear_arith)
                requires
                    full == count / per_page,
                    count % per_page != 0,
                    per_page > 0,
            ;
            full + 1
        }
    } else if count == 0 {
        0
    } else {
        usize::MAX
    }
}

/// Whether the query is empty or occurs in one of the texts of the entry.
fn query_hits(info: &Info, query: &str) -> (b: bool)
    ensures
        b == matches_query(info@, query@),
{
    let q = chars(query);
    if q.len() == 0 {
        return true;
    }
    let title = chars(info.title.as_str());
    if contains_chars(&title, &q) {
        return true;
    }
    let subtitle = chars(info.subtitle.as_str());
    if contains_chars(&subtitle, &q) {
        return true;
    }
    let author = chars(info.author.as_str());
    if contains_chars(&author, &q) {
        return true;
    }
    if info.categories.any_containing(query) {
        return true;
    }
    let path = chars(info.file.path.as_str());
    contains_chars(&path, &q)
}

/// Whether every path of `wanted` has a path of `categories` at or below it.
fn covers(categories: &CategorySet, wanted: &CategorySet) -> (b: bool)
    ensures
        b == meets_selected(categories@, wanted@),
{
    let n = wanted.len();
    let mut k: usize = 0;
    while k < n
        invariant
            k <= n,
            n == wanted.order().len(),
            wanted.order().to_set() == wanted@,
            forall|j: int|
                0 <= j < k ==> has_kin(
                    categories@,
                    Kin::SelfOrDescendant,
                    #[trigger] wanted.order()[j],
                ),
        decreases n - k,
    {
        let s = wanted.get(k);
        if !categories.any_kin(Kin::SelfOrDescendant, s.as_str()) {
            proof {
                assert(wanted@.contains(s@));
                if categories@.contains(s@) {
                    assert(is_kin(Kin::SelfOrDescendant, s@, s@));
                }
            }
            return false;
        }
        k = k + 1;
    }
    proof {
        assert forall|s: Seq<char>| wanted@.contains(s) implies #[trigger] has_kin(
            categories@,
            Kin::SelfOrDescendant,
            s,
        ) by {
            let j = choose|j: int| 0 <= j < wanted.order().len() && wanted.order()[j] == s;
            assert(has_kin(categories@, Kin::SelfOrDescendant, wanted.order()[j]));
        }
    }
    true
}

/// Whether no path of `categories` is a path of `unwanted` or lies below
/// one.
fn shuns(categories: &CategorySet, unwanted: &CategorySet) -> (b: bool)
    ensures
        b == avoids_negated(categories@, unwanted@),
{
    let n = unwanted.len();
    let mut k: usize = 0;
    while k < n
        invariant
            k <= n,
            n == unwanted.order().len(),
            unwanted.order().to_set() == unwanted@,
            forall|j: int, c: Seq<char>|
                #![trigger categories@.contains(c), unwanted.order()[j]]
                0 <= j < k && categories@.contains(c) ==> !is_kin(
                    Kin::SelfOrDescendant,
                    c,
                    unwanted.order()[j],
                ),
        decreases n - k,
    {
        let a = unwanted.get(k);
        if categories.any_kin(Kin::SelfOrDescendant, a.as_str()) {
            proof {
                let c = choose|c: Seq<char>|
                    categories@.contains(c) && #[trigger] is_kin(Kin::SelfOrDescendant, c, a@);
                assert(unwanted@.contains(a@));
                assert(!(unwanted@ =~= Set::<Seq<char>>::empty()));
            }
            return false;
        }
        k = k + 1;
    }
    proof {
        assert forall|c: Seq<char>, a: Seq<char>|
            categories@.contains(c) && unwanted@.contains(a) implies !is_kin(
            Kin::SelfOrDescendant,
            c,
            a,
        ) by {
            let j = choose|j: int| 0 <= j < unwanted.order().len() && unwanted.order()[j] == a;
            assert(!is_kin(Kin::SelfOrDescendant, c, unwanted.order()[j]));
        }
        assert forall|x: Seq<char>| !(unwanted@.contains(x) && categories@.contains(x)) by {
            if unwanted@.contains(x) && categories@.contains(x) {
                assert(!is_kin(Kin::SelfOrDescendant, x, x));
            }
        }
    }
    true
}

/// Whether the filter lets the entry through.
pub fn lets_through(
    info: &Info,
    query: &str,
    selected: &CategorySet,
    negated: &CategorySet,
) -> (b: bool)
    ensures
        b == is_visible(info@, query@, Selection { selected: selected@, negated: negated@ }),
{
    query_hits(info, query) && covers(&info.categories, selected) && shuns(
        &info.categories,
        negated,
    )
}

/// The entries that the filter lets through, in the order of the catalog.
fn filter_entries(
    metadata: &Metadata,
    query: &str,
    selected: &CategorySet,
    negated: &CategorySet,
) -> (out: Vec<Info>)
    ensures
        info_views(out@) == visible_entries(
            info_views(metadata@),
            query@,
            Selection { selected: selected@, negated: negated@ },
        ),
{
    let ghost choice = Selection { selected: selected@, negated: negated@ };
    let ghost all = info_views(metadata@);
    let ghost keep = |info: InfoView| is_visible(info, query@, choice);
    let mut out: Vec<Info> = Vec::new();
    let mut i: usize = 0;
    assert(all.take(0).filter(keep) =~= Seq::<InfoView>::empty());
    assert(info_views(out@) =~= Seq::<InfoView>::empty());
    while i < metadata.len()
        invariant
            i <= metadata.len(),
            all == info_views(metadata@),
            choice == (Selection { selected: selected@, negated: negated@ }),
            keep == (|info: InfoView| is_visible(info, query@, choice)),
            info_views(out@) == all.take(i as int).filter(keep),
        decreases metadata.len() - i,
    {
        let ghost before = info_views(out@);
        proof {
            assert(all.take(i + 1).drop_last() =~= all.take(i as int));
            assert(all.take(i + 1).last() == metadata[i as int]@);
            reveal_with_fuel(Seq::filter, 2);
        }
        if lets_through(&metadata[i], query, selected, negated) {
            let copy = metadata[i].clone();
            out.push(copy);
            proof {
                assert(info_views(out@) =~= before.push(metadata[i as int]@));
            }
        }
        i = i + 1;
    }
    assert(all.take(i as int) =~= all);
    out
}

/// Adds `path` and the paths above it to `out`.
fn list_with_ancestors(out: &mut CategorySet, path: &str)
    ensures
        final(out)@ == old(out)@.union(
            Set::new(|label: Seq<char>| is_kin(Kin::SelfOrAncestor, label, path@)),
        ),
{
    let ghost start = out@;
    out.insert(path);
    let above = ancestors(path);
    let mut m: usize = 0;
    while m < above.len()
        invariant
            m <= above.len(),
            slice_views(above@) == ancestors_of(path@),
            out@ == start.insert(path@).union(slice_views(above@).take(m as int).to_set()),
        decreases above.len() - m,
    {
        proof {
            let listed = slice_views(above@);
            assert(listed.take(m + 1) =~= listed.take(m as int).push(above[m as int]@));
            listed.take(m as int).lemma_push_to_set_commute(above[m as int]@);
        }
        out.insert(above[m]);
        m = m + 1;
    }
    proof {
        let listed = slice_views(above@);
        assert(listed.take(m as int) =~= listed);
        assert forall|label: Seq<char>|
            out@.contains(label) <==> start.union(
                Set::new(|label: Seq<char>| is_kin(Kin::SelfOrAncestor, label, path@)),
            ).contains(label) by {
            lemma_ancestors_are_what_it_descends_from(path@, label);
        }
        assert(out@ =~= start.union(
            Set::new(|label: Seq<char>| is_kin(Kin::SelfOrAncestor, label, path@)),
        ));
    }
}

/// Adds to `out` every path of `set` and every path above one.
fn list_forced(out: &mut CategorySet, set: &CategorySet)
    ensures
        final(out)@ == old(out)@.union(
            Set::new(
                |label: Seq<char>|
                    exists|p: Seq<char>|
                        set@.contains(p) && #[trigger] is_kin(Kin::SelfOrAncestor, label, p),
            ),
        ),
{
    let ghost start = out@;
    let n = set.len();
    let mut k: usize = 0;
    while k < n
        invariant
            k <= n,
            n == set.order().len(),
            set.order().to_set() == set@,
            out@ == start.union(
                Set::new(
                    |label: Seq<char>|
                        exists|j: int|
                            0 <= j < k && #[trigger] is_kin(
                                Kin::SelfOrAncestor,
                                label,
                                set.order()[j],
                            ),
                ),
            ),
        decreases n - k,
    {
        let ghost before = out@;
        let p = set.get(k);
        list_with_ancestors(out, p.as_str());
        proof {
            assert forall|label: Seq<char>|
                out@.contains(label) <==> start.union(
                    Set::new(
                        |label: Seq<char>|
                            exists|j: int|
                                0 <= j < k + 1 && #[trigger] is_kin(
                                    Kin::SelfOrAncestor,
                                    label,
                                    set.order()[j],
                                ),
                    ),
                ).contains(label) by {
                if is_kin(Kin::SelfOrAncestor, label, set.order()[k as int]) {
                }
                if exists|j: int|
                    0 <= j < k + 1 && #[trigger] is_kin(
                        Kin::SelfOrAncestor,
                        label,
                        set.order()[j],
                    ) {
                    let j = choose|j: int|
                        0 <= j < k + 1 && #[trigger] is_kin(
                            Kin::SelfOrAncestor,
                            label,
                            set.order()[j],
                        );
                    if j < k {
                        assert(before.contains(label));
                    }
                }
            }
            assert(out@ =~= start.union(
                Set::new(
                    |label: Seq<char>|
                        exists|j: int|
                            0 <= j < k + 1 && #[trigger] is_kin(
                                Kin::SelfOrAncestor,
                                label,
                                set.order()[j],
                            ),
                ),
            ));
        }
        k = k + 1;
    }
    proof {
        assert forall|label: Seq<char>|
            out@.contains(label) <==> start.union(
                Set::new(
                    |label: Seq<char>|
                        exists|p: Seq<char>|
                            set@.contains(p) && #[trigger] is_kin(Kin::SelfOrAncestor, label, p),
                ),
            ).contains(label) by {
            if exists|j: int|
                0 <= j < k && #[trigger] is_kin(Kin::SelfOrAncestor, label, set.order()[j]) {
                let j = choose|j: int|
                    0 <= j < k && #[trigger] is_kin(Kin::SelfOrAncestor, label, set.order()[j]);
                assert(set.order().contains(set.order()[j]));
                assert(set@.contains(set.order()[j]));
            }
            if exists|p: Seq<char>|
                set@.contains(p) && #[trigger] is_kin(Kin::SelfOrAncestor, label, p) {
                let p = choose|p: Seq<char>|
                    set@.contains(p) && #[trigger] is_kin(Kin::SelfOrAncestor, label, p);
                let j = choose|j: int| 0 <= j < set.order().len() && set.order()[j] == p;
                assert(is_kin(Kin::SelfOrAncestor, label, set.order()[j]));
            }
        }
        assert(out@ =~= start.union(
            Set::new(
                |label: Seq<char>|
                    exists|p: Seq<char>|
                        set@.contains(p) && #[trigger] is_kin(Kin::SelfOrAncestor, label, p),
            ),
        ));
    }
}

/// Adds to `out` the labels under which the categories of `info` are
/// listed.
fn list_entry(out: &mut CategorySet, info: &Info, selected: &CategorySet)
    ensures
        final(out)@ == old(out)@.union(
            Set::new(
                |label: Seq<char>|
                    exists|c: Seq<char>|
                        #[trigger] info@.categories.contains(c) && listed_as(c, selected@)
                            == label,
            ),
        ),
{
    let ghost start = out@;
    let n = info.categories.len();
    let mut k: usize = 0;
    while k < n
        invariant
            k <= n,
            n == info.categories.order().len(),
            info.categories.order().to_set() == info.categories@,
            out@ == start.union(
                Set::new(
                    |label: Seq<char>|
                        exists|j: int|
                            0 <= j < k && listed_as(
                                #[trigger] info.categories.order()[j],
                                selected@,
                            ) == label,
                ),
            ),
        decreases n - k,
    {
        let ghost before = out@;
        let c = info.categories.get(k);
        let keep = match parent(c.as_str()) {
            Some(up) => selected.contains(up),
            None => false,
        };
        let label = if keep {
            c.as_str()
        } else {
            first_component(c.as_str())
        };
        assert(label@ == listed_as(c@, selected@));
        out.insert(label);
        proof {
            assert forall|l: Seq<char>|
                out@.contains(l) <==> start.union(
                    Set::new(
                        |label: Seq<char>|
                            exists|j: int|
                                0 <= j < k + 1 && listed_as(
                                    #[trigger] info.categories.order()[j],
                                    selected@,
                                ) == label,
                    ),
                ).contains(l) by {
                if l == label@ {
                    assert(listed_as(info.categories.order()[k as int], selected@) == l);
                }
                if exists|j: int|
                    0 <= j < k + 1 && listed_as(
                        #[trigger] info.categories.order()[j],
                        selected@,
                    ) == l {
                    let j = choose|j: int|
                        0 <= j < k + 1 && listed_as(
                            #[trigger] info.categories.order()[j],
                            selected@,
                        ) == l;
                    if j < k {
                        assert(before.contains(l));
                    }
                }
            }
            assert(out@ =~= start.union(
                Set::new(
                    |label: Seq<char>|
                        exists|j: int|
                            0 <= j < k + 1 && listed_as(
                                #[trigger] info.categories.order()[j],
                                selected@,
                            ) == label,
                ),
            ));
        }
        k = k + 1;
    }
    proof {
        assert forall|l: Seq<char>|
            out@.contains(l) <==> start.union(
                Set::new(
                    |label: Seq<char>|
                        exists|c: Seq<char>|
                            #[trigger] info@.categories.contains(c) && listed_as(c, selected@)
                                == label,
                ),
            ).contains(l) by {
            if exists|j: int|
                0 <= j < k && listed_as(#[trigger] info.categories.order()[j], selected@) == l {
                let j = choose|j: int|
                    0 <= j < k && listed_as(#[trigger] info.categories.order()[j], selected@)
                        == l;
                assert(info.categories.order().contains(info.categories.order()[j]));
                assert(info@.categories.contains(info.categories.order()[j]));
            }
            if exists|c: Seq<char>|
                #[trigger] info@.categories.contains(c) && listed_as(c, selected@) == l {
                let c = choose|c: Seq<char>|
                    #[trigger] info@.categories.contains(c) && listed_as(c, selected@) == l;
                let j = choose|j: int|
                    0 <= j < info.categories.order().len() && info.categories.order()[j] == c;
                assert(listed_as(info.categories.order()[j], selected@) == l);
            }
        }
        assert(out@ =~= start.union(
            Set::new(
                |label: Seq<char>|
                    exists|c: Seq<char>|
                        #[trigger] info@.categories.contains(c) && listed_as(c, selected@)
                            == label,
            ),
        ));
    }
}

/// The labels of the category list.
fn list_categories(visible: &Vec<Info>, selected: &CategorySet, negated: &CategorySet) -> (out:
    CategorySet)
    ensures
        out@ == listed_categories(
            info_views(visible@),
            Selection { selected: selected@, negated: negated@ },
        ),
{
    let ghost choice = Selection { selected: selected@, negated: negated@ };
    let ghost entries = info_views(visible@);
    let mut out = CategorySet::new();
    let mut i: usize = 0;
    assert(out@ =~= Set::new(|label: Seq<char>| is_listed(label, entries, 0, selected@)));
    while i < visible.len()
        invariant
            i <= visible.len(),
            entries == info_views(visible@),
            out@ == Set::new(|label: Seq<char>| is_listed(label, entries, i as int, selected@)),
        decreases visible.len() - i,
    {
        let ghost before = out@;
        list_entry(&mut out, &visible[i], selected);
        proof {
            assert(entries[i as int] == visible[i as int]@);
            assert forall|l: Seq<char>|
                out@.contains(l) <==> is_listed(l, entries, i + 1, selected@) by {
                if is_listed(l, entries, i as int, selected@) {
                    let (j, c) = choose|j: int, c: Seq<char>|
                        0 <= j < i && j < entries.len() && #[trigger] entries[j].categories.contains(
                            c,
                        ) && listed_as(c, selected@) == l;
                    assert(0 <= j < i + 1 && entries[j].categories.contains(c));
                }
                if exists|c: Seq<char>|
                    #[trigger] visible[i as int]@.categories.contains(c) && listed_as(
                        c,
                        selected@,
                    ) == l {
                    let c = choose|c: Seq<char>|
                        #[trigger] visible[i as int]@.categories.contains(c) && listed_as(
                            c,
                            selected@,
                        ) == l;
                    assert(entries[i as int].categories.contains(c));
                }
                if is_listed(l, entries, i + 1, selected@) {
                    let (j, c) = choose|j: int, c: Seq<char>|
                        0 <= j < i + 1 && j < entries.len()
                            && #[trigger] entries[j].categories.contains(c) && listed_as(
                            c,
                            selected@,
                        ) == l;
                    if j < i {
                        assert(is_listed(l, entries, i as int, selected@));
                    } else {
                        assert(visible[i as int]@.categories.contains(c));
                    }
                }
            }
            assert(out@ =~= Set::new(
                |label: Seq<char>| is_listed(label, entries, i + 1, selected@),
            ));
        }
        i = i + 1;
    }
    let ghost listed = out@;
    list_forced(&mut out, selected);
    list_forced(&mut out, negated);
    proof {
        assert forall|l: Seq<char>|
            out@.contains(l) <==> listed_categories(entries, choice).contains(l) by {
            if is_forced(l, choice) {
                let p = choose|p: Seq<char>|
                    (choice.selected.contains(p) || choice.negated.contains(p))
                        && #[trigger] is_kin(Kin::SelfOrAncestor, l, p);
                if choice.selected.contains(p) {
                    assert(selected@.contains(p) && is_kin(Kin::SelfOrAncestor, l, p));
                } else {
                    assert(negated@.contains(p) && is_kin(Kin::SelfOrAncestor, l, p));
                }
            }
            if exists|p: Seq<char>|
                selected@.contains(p) && #[trigger] is_kin(Kin::SelfOrAncestor, l, p) {
                let p = choose|p: Seq<char>|
                    selected@.contains(p) && #[trigger] is_kin(Kin::SelfOrAncestor, l, p);
                assert(choice.selected.contains(p));
            }
            if exists|p: Seq<char>|
                negated@.contains(p) && #[trigger] is_kin(Kin::SelfOrAncestor, l, p) {
                let p = choose|p: Seq<char>|
                    negated@.contains(p) && #[trigger] is_kin(Kin::SelfOrAncestor, l, p);
                assert(choice.negated.contains(p));
            }
        }
        assert(out@ =~= listed_categories(entries, choice));
    }
    out
}

impl Home {
    #[verifier::type_invariant]
    spec fn inv(&self) -> bool {
        (Selection {
            selected: self.selected_categories@,
            negated: self.negated_categories@,
        }).coherent()
    }

    /// The browser as it opens on the part `rect` of the screen and on a
    /// catalog: every entry visible, nothing selected, the first page
    /// current; it asks on the hub for all of `rect` to be painted. The
    /// screen has room for `lines` lines below the bars; the category list
    /// takes `summary_size` of them, as far as there are that many, and one
    /// at least, and leaves the rest, and one more, to the entries of a page.
    pub fn new(
        rect: Rectangle,
        hub: &mut Hub,
        metadata: &Metadata,
        summary_size: u8,
        lines: usize,
    ) -> (home: Home)
        ensures
            home@ == (HomeView {
                rect,
                current_page: 0,
                pages_count: pages_for(
                    metadata.len() as int,
                    shelf_lines(summary_size, lines) as int,
                ) as usize,
                focus: None,
                query: Seq::empty(),
                summary_size: summary_lines(summary_size, lines),
                sort_method: SortMethod::Opened,
                reverse_order: true,
                visible_books: info_views(metadata@),
                visible_categories: listed_categories(info_views(metadata@), Selection::empty()),
                choice: Selection::empty(),
            }),
            home@ == refreshed(home@, info_views(metadata@), shelf_lines(summary_size, lines), true),
            final(hub)@ == old(hub)@.push(Event::Render(rect, UpdateMode::Full)),
    {
        hub.send(Event::Render(rect, UpdateMode::Full));
        let cap: u8 = (lines % 256) as u8;
        let at_least_one: u8 = if summary_size < 1 {
            1
        } else {
            summary_size
        };
        let summary_size: u8 = if at_least_one > cap {
            cap
        } else {
            at_least_one
        };
        let max_lines: usize = lines - summary_size as usize + 1;
        let selected_categories = CategorySet::new();
        let negated_categories = CategorySet::new();
        let query = String::new();
        let visible_books = filter_entries(
            metadata,
            query.as_str(),
            &selected_categories,
            &negated_categories,
        );
        let visible_categories = list_categories(
            &visible_books,
            &selected_categories,
            &negated_categories,
        );
        let pages_count = pages(visible_books.len(), max_lines);
        let sort_method = SortMethod::Opened;
        proof {
            assert(query@ =~= Seq::<char>::empty());
            lemma_empty_filter_keeps_all(info_views(metadata@));
        }
        Home {
            rect,
            current_page: 0,
            pages_count,
            focus: None,
            query,
            summary_size,
            sort_method,
            reverse_order: sort_method.reverse_order(),
            visible_books,
            visible_categories,
            selected_categories,
            negated_categories,
        }
    }

    pub fn rect(&self) -> (rect: Rectangle)
        ensures
            rect == self@.rect,
    {
        self.rect
    }

    pub fn current_page(&self) -> (page: usize)
        ensures
            page == self@.current_page,
    {
        self.current_page
    }

    pub fn pages_count(&self) -> (count: usize)
        ensures
            count == self@.pages_count,
    {
        self.pages_count
    }

    pub fn focus(&self) -> (focus: Option<ViewId>)
        ensures
            focus == self@.focus,
    {
        self.focus
    }

    pub fn query(&self) -> (query: &String)
        ensures
            query@ == self@.query,
    {
        &self.query
    }

    pub fn summary_size(&self) -> (size: u8)
        ensures
            size == self@.summary_size,
    {
        self.summary_size
    }

    pub fn sort_method(&self) -> (method: SortMethod)
        ensures
            method == self@.sort_method,
    {
        self.sort_method
    }

    pub fn reverse_order(&self) -> (reverse: bool)
        ensures
            reverse == self@.reverse_order,
    {
        self.reverse_order
    }

    pub fn visible_books(&self) -> (books: &Metadata)
        ensures
            info_views(books@) == self@.visible_books,
    {
        &self.visible_books
    }

    pub fn visible_categories(&self) -> (labels: &CategorySet)
        ensures
            labels@ == self@.visible_categories,
    {
        &self.visible_categories
    }

    pub fn selected_categories(&self) -> (selected: &CategorySet)
        ensures
            selected@ == self@.choice.selected,
    {
        &self.selected_categories
    }

    pub fn negated_categories(&self) -> (negated: &CategorySet)
        ensures
            negated@ == self@.choice.negated,
    {
        &self.negated_categories
    }

    /// Whether the filter, as it stands, lets the entry through.
    pub fn shows(&self, info: &Info) -> (b: bool)
        ensures
            b == is_visible(info@, self@.query, self@.choice),
    {
        lets_through(info, self.query.as_str(), &self.selected_categories, &self.negated_categories)
    }

    /// The part of the list that the current page shows at `max_lines`
    /// entries a page: the positions of its first entry and of the entry
    /// after its last one.
    pub fn page_range(&self, max_lines: usize) -> (range: (usize, usize))
        requires
            self@.current_page * max_lines <= self@.visible_books.len(),
        ensures
            range.0 == self@.current_page * max_lines,
            range.1 == if range.0 + max_lines <= self@.visible_books.len() {
                range.0 + max_lines
            } else {
                self@.visible_books.len() as int
            },
    {
        let count = self.visible_books.len();
        let lower: usize = self.current_page * max_lines;
        let upper: usize = if max_lines <= count - lower {
            lower + max_lines
        } else {
            count
        };
        (lower, upper)
    }

    /// The entries of the sort menu: one for each order, the current one
    /// marked, and below a separator the direction.
    pub fn sort_menu_entries(&self) -> (entries: Vec<EntryKind>)
        ensures
            entries.len() == 8,
            entries[0] matches EntryKind::RadioButton(text, id, on) && text@ == "Date Opened"@
                && id == EntryId::Sort(SortMethod::Opened) && on == (self@.sort_method
                == SortMethod::Opened),
            entries[1] matches EntryKind::RadioButton(text, id, on) && text@ == "Date Added"@ && id
                == EntryId::Sort(SortMethod::Added) && on == (self@.sort_method
                == SortMethod::Added),
            entries[2] matches EntryKind::RadioButton(text, id, on) && text@ == "Progress"@ && id
                == EntryId::Sort(SortMethod::Progress) && on == (self@.sort_method
                == SortMethod::Progress),
            entries[3] matches EntryKind::RadioButton(text, id, on) && text@ == "Author"@ && id
                == EntryId::Sort(SortMethod::Author) && on == (self@.sort_method
                == SortMethod::Author),
            entries[4] matches EntryKind::RadioButton(text, id, on) && text@ == "File Size"@ && id
                == EntryId::Sort(SortMethod::Size) && on == (self@.sort_method == SortMethod::Size),
            entries[5] matches EntryKind::RadioButton(text, id, on) && text@ == "File Type"@ && id
                == EntryId::Sort(SortMethod::Kind) && on == (self@.sort_method == SortMethod::Kind),
            entries[6] is Separator,
            entries[7] matches EntryKind::CheckBox(text, id, on) && text@ == "Reverse Order"@ && id
                == EntryId::ReverseOrder && on == self@.reverse_order,
    {
        let mut entries: Vec<EntryKind> = Vec::new();
        entries.push(Home::sort_entry(SortMethod::Opened, self.sort_method));
        entries.push(Home::sort_entry(SortMethod::Added, self.sort_method));
        entries.push(Home::sort_entry(SortMethod::Progress, self.sort_method));
        entries.push(Home::sort_entry(SortMethod::Author, self.sort_method));
        entries.push(Home::sort_entry(SortMethod::Size, self.sort_method));
        entries.push(Home::sort_entry(SortMethod::Kind, self.sort_method));
        entries.push(EntryKind::Separator);
        entries.push(
            EntryKind::CheckBox(
                "Reverse Order".to_owned(),
                EntryId::ReverseOrder,
                self.reverse_order,
            ),
        );
        entries
    }

    /// The entry of the sort menu for the order `method`, marked where it is
    /// the current one.
    fn sort_entry(method: SortMethod, current: SortMethod) -> (entry: EntryKind)
        ensures
            entry matches EntryKind::RadioButton(text, id, on) && text@ == method.label_spec()
                && id == EntryId::Sort(method) && on == (current == method),
    {
        EntryKind::RadioButton(method.label().to_owned(), EntryId::Sort(method), current == method)
    }

    /// The entries of the menu of the matches.
    pub fn matches_menu_entries(&self) -> (entries: Vec<EntryKind>)
        ensures
            entries.len() == 1,
            entries[0] matches EntryKind::Command(text, id) && text@ == "Export"@ && id
                == EntryId::ExportMatches,
    {
        let mut entries: Vec<EntryKind> = Vec::new();
        entries.push(EntryKind::Command("Export".to_owned(), EntryId::ExportMatches));
        entries
    }

    /// Whether a query or a category narrows the list.
    pub fn is_filtering(&self) -> (b: bool)
        ensures
            b == (self@.query.len() > 0 || self@.choice.selected != Set::<Seq<char>>::empty()
                || self@.choice.negated != Set::<Seq<char>>::empty()),
    {
        let q = chars(self.query.as_str());
        q.len() > 0 || !self.selected_categories.is_empty() || !self.negated_categories.is_empty()
    }

    /// Replaces the free-text query. The list follows at the next
    /// `refresh_visibles`.
    pub fn set_query(&mut self, query: &str)
        ensures
            final(self)@ == (HomeView { query: query@, ..old(self)@ }),
    {
        proof {
            use_type_invariant(&*self);
        }
        self.query = query.to_owned();
    }

    /// Moves the focus of the keyboard.
    pub fn set_focus(&mut self, focus: Option<ViewId>)
        ensures
            final(self)@ == (HomeView { focus, ..old(self)@ }),
    {
        proof {
            use_type_invariant(&*self);
        }
        self.focus = focus;
    }

    /// Chooses the direction of the order.
    pub fn set_reverse_order(&mut self, value: bool)
        ensures
            final(self)@ == (HomeView { reverse_order: value, ..old(self)@ }),
    {
        proof {
            use_type_invariant(&*self);
        }
        self.reverse_order = value;
    }

    /// Chooses the order, in its default direction.
    pub fn set_sort_method(&mut self, sort_method: SortMethod)
        ensures
            final(self)@ == (HomeView {
                sort_method,
                reverse_order: sort_method.reverse_order(),
                ..old(self)@
            }),
    {
        proof {
            use_type_invariant(&*self);
        }
        self.sort_method = sort_method;
        self.reverse_order = sort_method.reverse_order();
    }

    /// Computes anew, from the catalog, the visible entries, the category
    /// list and the number of pages at `max_lines` entries a page. The
    /// current page becomes the first one where `reset_page` asks for it, and
    /// the last one where the list got too short for it.
    pub fn refresh_visibles(&mut self, metadata: &Metadata, max_lines: usize, reset_page: bool)
        ensures
            final(self)@ == refreshed(old(self)@, info_views(metadata@), max_lines, reset_page),
    {
        proof {
            use_type_invariant(&*self);
        }
        let visible_books = filter_entries(
            metadata,
            self.query.as_str(),
            &self.selected_categories,
            &self.negated_categories,
        );
        let visible_categories = list_categories(
            &visible_books,
            &self.selected_categories,
            &self.negated_categories,
        );
        let pages_count = pages(visible_books.len(), max_lines);
        self.visible_books = visible_books;
        self.visible_categories = visible_categories;
        self.pages_count = pages_count;
        if reset_page {
            self.current_page = 0;
        } else if self.current_page >= pages_count {
            self.current_page = if pages_count > 0 {
                pages_count - 1
            } else {
                0
            };
        }
    }

    /// A selecting tap on the category `categ`. The list follows at the next
    /// `refresh_visibles`.
    pub fn toggle_select_category(&mut self, categ: &str)
        ensures
            final(self)@ == (HomeView {
                choice: old(self)@.choice.toggle_select(categ@),
                ..old(self)@
            }),
            final(self)@.choice.coherent(),
    {
        proof {
            use_type_invariant(&*self);
            lemma_toggle_keeps_coherence(self@.choice, Toggle::Select(categ@));
        }
        if self.selected_categories.contains(categ) {
            let mut selected = CategorySet::new();
            std::mem::swap(&mut self.selected_categories, &mut selected);
            selected.remove(categ);
            std::mem::swap(&mut self.selected_categories, &mut selected);
        } else {
            let negated = self.negated_categories.without(Kin::SelfOrDescendant, categ);
            let mut selected = self.selected_categories.without(Kin::Relative, categ);
            selected.insert(categ);
            self.negated_categories = negated;
            self.selected_categories = selected;
        }
    }

    /// An excluding tap on the category `categ`. The list follows at the
    /// next `refresh_visibles`.
    pub fn toggle_negate_category(&mut self, categ: &str)
        ensures
            final(self)@ == (HomeView {
                choice: old(self)@.choice.toggle_negate(categ@),
                ..old(self)@
            }),
            final(self)@.choice.coherent(),
    {
        proof {
            use_type_invariant(&*self);
            lemma_toggle_keeps_coherence(self@.choice, Toggle::Negate(categ@));
        }
        if self.negated_categories.contains(categ) {
            let mut negated = CategorySet::new();
            std::mem::swap(&mut self.negated_categories, &mut negated);
            negated.remove(categ);
            std::mem::swap(&mut self.negated_categories, &mut negated);
        } else {
            let mut negated = self.negated_categories.without(Kin::Relative, categ);
            let selected = self.selected_categories.without(Kin::SelfOrDescendant, categ);
            negated.insert(categ);
            self.selected_categories = selected;
            self.negated_categories = negated;
        }
    }

    /// An excluding tap on every label of the category list that lies one
    /// level below `parent`.
    pub fn toggle_negate_category_children(&mut self, parent: &str)
        ensures
            final(self)@ == (HomeView {
                choice: old(self)@.choice.negate_each(
                    children_of(old(self)@.visible_categories, parent@),
                ),
                ..old(self)@
            }),
            final(self)@.choice.coherent(),
    {
        let ghost start = self@;
        let ghost labels = self.visible_categories.order();
        let mut children: Vec<String> = Vec::new();
        let n = self.visible_categories.len();
        let mut i: usize = 0;
        while i < n
            invariant
                i <= n,
                n == labels.len(),
                labels == self.visible_categories.order(),
                labels.no_duplicates(),
                views(children@).no_duplicates(),
                forall|c: Seq<char>|
                    #[trigger] views(children@).contains(c) <==> labels.take(i as int).contains(c)
                        && crate::symbolic_path::is_child(c, parent@),
            decreases n - i,
        {
            let c = self.visible_categories.get(i);
            let ghost before = views(children@);
            proof {
                assert(labels.take(i + 1) =~= labels.take(i as int).push(labels[i as int]));
                assert forall|x: Seq<char>|
                    labels.take(i + 1).contains(x) <==> labels.take(i as int).contains(x) || x
                        == labels[i as int] by {
                    if labels.take(i as int).contains(x) {
                        let j = choose|j: int|
                            0 <= j < labels.take(i as int).len() && labels.take(i as int)[j] == x;
                        assert(labels.take(i + 1)[j] == x);
                    }
                    if x == labels[i as int] {
                        assert(labels.take(i + 1)[i as int] == x);
                    }
                }
                if labels.take(i as int).contains(labels[i as int]) {
                    let j = choose|j: int|
                        0 <= j < labels.take(i as int).len() && labels.take(i as int)[j]
                            == labels[i as int];
                    assert(labels[j] == labels[i as int]);
                }
            }
            if is_child_of(c.as_str(), parent) {
                let copy = c.clone();
                children.push(copy);
                proof {
                    let now = views(children@);
                    assert(now =~= before.push(c@));
                    assert forall|x: Seq<char>|
                        #[trigger] now.contains(x) <==> before.contains(x) || x == c@ by {
                        if before.contains(x) {
                            let j = choose|j: int| 0 <= j < before.len() && before[j] == x;
                            assert(now[j] == x);
                        }
                        if x == c@ {
                            assert(now[before.len() as int] == x);
                        }
                    }
                    assert forall|a: int, b: int|
                        0 <= a < now.len() && 0 <= b < now.len() && a != b implies now[a]
                        != now[b] by {
                        if a < before.len() {
                            assert(before.contains(before[a]));
                        }
                        if b < before.len() {
                            assert(before.contains(before[b]));
                        }
                    }
                }
            }
            i = i + 1;
        }
        let ghost kids = views(children@);
        proof {
            assert(labels.take(i as int) =~= labels);
            lemma_negate_none(start.choice);
            assert(kids.subrange(kids.len() as int, kids.len() as int).to_set() =~= Set::<
                Seq<char>,
            >::empty());
        }
        while children.len() > 0
            invariant
                children.len() <= kids.len(),
                views(children@) == kids.take(children.len() as int),
                kids.no_duplicates(),
                forall|c: Seq<char>|
                    #[trigger] kids.contains(c) ==> crate::symbolic_path::is_child(c, parent@),
                self@ == (HomeView {
                    choice: start.choice.negate_each(
                        kids.subrange(children.len() as int, kids.len() as int).to_set(),
                    ),
                    ..start
                }),
            decreases children.len(),
        {
            let ghost len = children.len() as int;
            let ghost done = kids.subrange(len, kids.len() as int).to_set();
            let ghost prev = children@;
            let c = children.pop().unwrap();
            proof {
                assert(views(prev)[len - 1] == prev[len - 1]@);
                assert(c@ == kids[len - 1]);
                assert(views(children@) =~= kids.take(len - 1));
                assert(kids.contains(c@));
                assert forall|d: Seq<char>| done.contains(d) implies d != c@
                    && !crate::symbolic_path::related(d, c@) by {
                    let j = choose|j: int|
                        0 <= j < kids.subrange(len, kids.len() as int).len() && kids.subrange(
                            len,
                            kids.len() as int,
                        )[j] == d;
                    assert(kids[len + j] == d);
                    assert(kids.contains(d));
                    lemma_siblings_unrelated(d, c@, parent@);
                }
                lemma_negate_one_more(start.choice, done, c@);
                let more = kids.subrange(len - 1, kids.len() as int);
                assert(more =~= seq![c@] + kids.subrange(len, kids.len() as int));
                assert forall|x: Seq<char>| more.to_set().contains(x) <==> done.insert(
                    c@,
                ).contains(x) by {
                    if more.contains(x) {
                        let j = choose|j: int| 0 <= j < more.len() && more[j] == x;
                        if j > 0 {
                            assert(kids.subrange(len, kids.len() as int)[j - 1] == x);
                        }
                    }
                    if x == c@ {
                        assert(more[0] == x);
                    }
                    if done.contains(x) {
                        let j = choose|j: int|
                            0 <= j < kids.subrange(len, kids.len() as int).len() && kids.subrange(
                                len,
                                kids.len() as int,
                            )[j] == x;
                        assert(more[j + 1] == x);
                    }
                }
                assert(more.to_set() =~= done.insert(c@));
            }
            self.toggle_negate_category(c.as_str());
        }
        proof {
            use_type_invariant(&*self);
            assert(kids.subrange(0, kids.len() as int) =~= kids);
            assert(kids.to_set() =~= children_of(start.visible_categories, parent@)) by {
                assert forall|x: Seq<char>|
                    kids.to_set().contains(x) <==> children_of(
                        start.visible_categories,
                        parent@,
                    ).contains(x) by {
                    assert(kids.contains(x) <==> labels.contains(x)
                        && crate::symbolic_path::is_child(x, parent@));
                }
            }
        }
    }

    /// Shows, hides or switches the search bar, as far as the state of the
    /// browser goes; `shown` tells whether the bar is on the screen. Returns
    /// what became of the bar, and whether the keyboard is to go with it.
    pub fn toggle_search_bar(&mut self, enable: Option<bool>, shown: bool, hub: &mut Hub) -> (outcome:
        (Toggled, bool))
        ensures
            final(self)@ == search_bar_toggled(old(self)@, enable, shown).0,
            final(hub)@ == old(hub)@ + search_bar_toggled(old(self)@, enable, shown).1,
            outcome.0 == search_bar_toggled(old(self)@, enable, shown).2,
            outcome.1 == search_bar_toggled(old(self)@, enable, shown).3,
    {
        proof {
            use_type_invariant(&*self);
            assert(hub@ + Seq::<Event>::empty() =~= hub@);
        }
        let asked_to_show = match enable {
            Some(true) => true,
            _ => false,
        };
        let asked_to_hide = match enable {
            Some(false) => true,
            _ => false,
        };
        if shown {
            if asked_to_show {
                return (Toggled::Unchanged, false);
            }
            let had_focus = match self.focus {
                Some(ViewId::SearchInput) => true,
                _ => false,
            };
            if had_focus {
                self.focus = None;
            }
            self.query = String::new();
            (Toggled::Closed, had_focus)
        } else {
            if asked_to_hide {
                return (Toggled::Unchanged, false);
            }
            self.focus = Some(ViewId::SearchInput);
            hub.send(Event::Focus(Some(ViewId::SearchInput)));
            proof {
                assert(old(hub)@.push(Event::Focus(Some(ViewId::SearchInput))) =~= old(hub)@
                    + seq![Event::Focus(Some(ViewId::SearchInput))]);
            }
            (Toggled::Wanted, false)
        }
    }

    /// Deals with an event, as far as the state of the browser goes; the
    /// answer says what is left to do around it. `search_shown` tells whether
    /// the search bar is on the screen.
    pub fn handle_event(
        &mut self,
        evt: &Event,
        metadata: &Metadata,
        max_lines: usize,
        search_shown: bool,
        hub: &mut Hub,
    ) -> (answer: Answer)
        ensures
            final(self)@ == reaction(
                old(self)@,
                *evt,
                info_views(metadata@),
                max_lines,
                search_shown,
            ).0,
            answer == reaction(old(self)@, *evt, info_views(metadata@), max_lines, search_shown).1,
            final(hub)@ == old(hub)@ + reaction(
                old(self)@,
                *evt,
                info_views(metadata@),
                max_lines,
                search_shown,
            ).2,
    {
        proof {
            assert(hub@ + Seq::<Event>::empty() =~= hub@);
        }
        let only = |layout: Layout| -> (answer: Answer)
            ensures
                answer == asks(layout),
            { Answer { captured: true, layout, refresh: Refresh::Nothing } };
        let list = Answer { captured: true, layout: Layout::Nothing, refresh: Refresh::List };
        let page = Answer { captured: true, layout: Layout::Nothing, refresh: Refresh::Page };
        let none = Answer { captured: false, layout: Layout::Nothing, refresh: Refresh::Nothing };
        match evt {
            Event::Focus(v) => {
                self.set_focus(*v);
                Answer { captured: false, layout: Layout::Keyboard(true), refresh: Refresh::Nothing }
            },
            Event::Show(ViewId::Keyboard) => only(Layout::Keyboard(true)),
            Event::Toggle(ViewId::GoToPage) => only(Layout::GoToPage(None)),
            Event::Toggle(ViewId::SearchBar) => {
                let outcome = self.toggle_search_bar(None, search_shown, hub);
                only(Layout::SearchBar(outcome.0, outcome.1))
            },
            Event::ToggleNear(ViewId::SortMenu, rect) => only(Layout::SortMenu(*rect, None)),
            Event::ToggleNear(ViewId::MainMenu, rect) => only(Layout::MainMenu(*rect, None)),
            Event::ToggleNear(ViewId::MatchesMenu, rect) => only(Layout::MatchesMenu(*rect, None)),
            Event::Close(ViewId::SearchBar) => {
                let outcome = self.toggle_search_bar(Some(false), search_shown, hub);
                self.refresh_visibles(metadata, max_lines, true);
                Answer {
                    captured: true,
                    layout: Layout::SearchBar(outcome.0, outcome.1),
                    refresh: Refresh::List,
                }
            },
            Event::Close(ViewId::SortMenu) => only(
                Layout::SortMenu(Rectangle::default(), Some(false)),
            ),
            Event::Close(ViewId::MatchesMenu) => only(
                Layout::MatchesMenu(Rectangle::default(), Some(false)),
            ),
            Event::Close(ViewId::MainMenu) => only(
                Layout::MainMenu(Rectangle::default(), Some(false)),
            ),
            Event::Close(ViewId::GoToPage) => only(Layout::GoToPage(Some(false))),
            Event::Select(EntryId::Sort(sort_method)) => {
                self.set_sort_method(*sort_method);
                only(Layout::Sort)
            },
            Event::Select(EntryId::ReverseOrder) => {
                let next_value = !self.reverse_order;
                self.set_reverse_order(next_value);
                only(Layout::Sort)
            },
            Event::Select(EntryId::ExportMatches) => only(Layout::ExportMatches),
            Event::Submit(ViewId::SearchInput, query) => {
                self.set_query(query.as_str());
                self.refresh_visibles(metadata, max_lines, true);
                Answer { captured: true, layout: Layout::Keyboard(false), refresh: Refresh::List }
            },
            Event::ResizeSummary(delta_y) => only(Layout::ResizeSummary(*delta_y)),
            Event::ToggleSelectCategory(categ) => {
                self.toggle_select_category(categ.as_str());
                self.refresh_visibles(metadata, max_lines, true);
                list
            },
            Event::ToggleNegateCategory(categ) => {
                self.toggle_negate_category(categ.as_str());
                self.refresh_visibles(metadata, max_lines, true);
                list
            },
            Event::ToggleNegateCategoryChildren(categ) => {
                self.toggle_negate_category_children(categ.as_str());
                self.refresh_visibles(metadata, max_lines, true);
                list
            },
            Event::GoTo(index) => {
                if self.go_to_page(*index) {
                    page
                } else {
                    only(Layout::Nothing)
                }
            },
            Event::Page(dir) => {
                if self.set_current_page(*dir) {
                    page
                } else {
                    only(Layout::Nothing)
                }
            },
            Event::Back => {
                self.refresh_visibles(metadata, max_lines, false);
                Answer { captured: true, layout: Layout::Reseed, refresh: Refresh::List }
            },
            _ => none,
        }
    }

    /// Counts the pages anew at `max_lines` entries a page, and shows the
    /// page `page` or, where the list ends before it, the last page.
    pub fn set_page_size(&mut self, max_lines: usize, page: usize)
        ensures
            final(self)@ == (HomeView {
                pages_count: pages_for(
                    old(self)@.visible_books.len() as int,
                    max_lines as int,
                ) as usize,
                current_page: if page < final(self)@.pages_count {
                    page
                } else if final(self)@.pages_count > 0 {
                    (final(self)@.pages_count - 1) as usize
                } else {
                    0
                },
                ..old(self)@
            }),
    {
        proof {
            use_type_invariant(&*self);
        }
        let pages_count = pages(self.visible_books.len(), max_lines);
        self.pages_count = pages_count;
        self.current_page = if page < pages_count {
            page
        } else if pages_count > 0 {
            pages_count - 1
        } else {
            0
        };
    }

    /// Shows the page `index`, if the list has it; returns whether it does.
    pub fn go_to_page(&mut self, index: usize) -> (moved: bool)
        ensures
            moved == (index < old(self)@.pages_count),
            final(self)@ == if moved {
                HomeView { current_page: index, ..old(self)@ }
            } else {
                old(self)@
            },
    {
        proof {
            use_type_invariant(&*self);
        }
        if index >= self.pages_count {
            return false;
        }
        self.current_page = index;
        true
    }

    /// Turns one page in the direction `dir`, if a page lies there; returns
    /// whether one does.
    pub fn set_current_page(&mut self, dir: CycleDir) -> (moved: bool)
        ensures
            moved == match dir {
                CycleDir::Next => old(self)@.current_page + 1 < old(self)@.pages_count,
                CycleDir::Previous => old(self)@.current_page > 0,
            },
            final(self)@ == if !moved {
                old(self)@
            } else {
                match dir {
                    CycleDir::Next => HomeView {
                        current_page: (old(self)@.current_page + 1) as usize,
                        ..old(self)@
                    },
                    CycleDir::Previous => HomeView {
                        current_page: (old(self)@.current_page - 1) as usize,
                        ..old(self)@
                    },
                }
            },
    {
        proof {
            use_type_invariant(&*self);
        }
        match dir {
            CycleDir::Next => {
                if self.pages_count > 0 && self.current_page < self.pages_count - 1 {
                    self.current_page = self.current_page + 1;
                    true
                } else {
                    false
                }
            },
            CycleDir::Previous => {
                if self.current_page > 0 {
                    self.current_page = self.current_page - 1;
                    true
                } else {
                    false
                }
            },
        }
    }
}

/// Without a query and without a choice of categories the filter lets every
/// entry through.
pub proof fn lemma_empty_filter_keeps_all(entries: Seq<InfoView>)
    ensures
        visible_entries(entries, Seq::empty(), Selection::empty()) == entries,
    decreases entries.len(),
{
    reveal_with_fuel(Seq::filter, 2);
    if entries.len() > 0 {
        lemma_empty_filter_keeps_all(entries.drop_last());
        assert(is_visible(entries.last(), Seq::<char>::empty(), Selection::empty()));
        assert(entries.drop_last().push(entries.last()) =~= entries);
    }
}

} // verus!
