//! Views are organized as a tree. A view receives and sends events and paints
//! itself. The z-level of the n-th child of a view is at most the z-level of
//! its n+1-th child.
//!
//! Events travel from the root to the leaves. A view sends events to the main
//! channel through the *hub* and talks to its parent through the *bus*: of the
//! events that its children put on the bus, a view hands on to its own parent
//! those that it does not handle itself.

pub mod dispatch;
pub mod home;
pub mod key;
pub mod repaint;

use std::collections::VecDeque;
use vstd::prelude::*;
use vstd::view::View as _;
use fnv::FnvHashMap;
use crate::framebuffer::{wait_for_overlapping, Framebuffer, UpdateMode};
use crate::geom::{CycleDir, LinearDir, Rectangle};
use crate::gesture::GestureEvent;
use crate::input::FingerStatus;
use crate::metadata::{Info, Margin, SortMethod};
use crate::view::dispatch::{
    dispatch, lemma_capture_ends_sweep, lemma_sweep_spares_lower, relay, route, sweep, Handled,
};
use crate::view::key::KeyKind;
use crate::view::repaint::{filled, rendered, visit, walk, walk_children, Canvas, Pass};

verus! {

/// How long a view that closes itself waits before it does, in
/// milliseconds.
pub const CLOSE_IGNITION_DELAY_MS: u64 = 200;

/// Names of the singleton views that events address by identity.
#[derive(Debug, Copy, Clone, Eq, PartialEq, Structural)]
pub enum ViewId {
    Home,
    Reader,
    SortMenu,
    MainMenu,
    FrontlightMenu,
    FontSizeMenu,
    MatchesMenu,
    GoToPage,
    GoToPageInput,
    SearchInput,
    SearchBar,
    Keyboard,
    MarginCropper,
    TopBottomBars,
    TableOfContents,
}

/// Names of the sliders.
#[derive(Debug, Copy, Clone, Eq, PartialEq, Structural)]
pub enum SliderId {
    FontSize,
    White,
    Red,
    Green,
}

/// Horizontal placement of a box inside a wider container.
#[derive(Debug, Clone)]
pub enum Align {
    Left(i32),
    Right(i32),
    Center,
}

/// The unit a keyboard motion or deletion acts on.
#[derive(Debug, Copy, Clone)]
pub enum TextKind {
    Char,
    Word,
    Extremum,
}

/// The quotient of `a` by two, rounded toward zero.
pub open spec fn half(a: int) -> int {
    if a >= 0 {
        a / 2
    } else {
        -((-a) / 2)
    }
}

impl Align {
    /// The distance from the container's left edge at which a box of the
    /// given width starts.
    pub open spec fn offset_spec(self, width: int, container_width: int) -> int {
        match self {
            Align::Left(dx) => dx as int,
            Align::Right(dx) => container_width - width - dx,
            Align::Center => half(container_width - width),
        }
    }

    /// Whether every step of the computation stays within `i32`.
    pub open spec fn fits(self, width: int, container_width: int) -> bool {
        match self {
            Align::Left(_) => true,
            Align::Right(dx) => {
                &&& i32::MIN <= container_width - width <= i32::MAX
                &&& i32::MIN <= container_width - width - dx <= i32::MAX
            },
            Align::Center => i32::MIN <= container_width - width <= i32::MAX,
        }
    }

    #[inline]
    pub fn offset(&self, width: i32, container_width: i32) -> (x: i32)
        requires
            self.fits(width as int, container_width as int),
        ensures
            x == self.offset_spec(width as int, container_width as int),
    {
        match *self {
            Align::Left(dx) => dx,
            Align::Right(dx) => container_width - width - dx,
            Align::Center => (container_width - width) / 2,
        }
    }
}

/// What the on-screen keyboard asks of a text field.
#[derive(Debug, Copy, Clone)]
pub enum KeyboardEvent {
    Append(char),
    Partial(char),
    Move { target: TextKind, dir: LinearDir },
    Delete { target: TextKind, dir: LinearDir },
    Submit,
}

/// What a menu entry stands for.
#[derive(Debug, Copy, Clone, Eq, PartialEq, Structural)]
pub enum EntryId {
    Sort(SortMethod),
    ExportMatches,
    ReverseOrder,
    SubSort,
    ToggleInverted,
    ToggleMonochrome,
    TakeScreenshot,
    Quit,
}

/// One line of a menu.
#[derive(Debug, Clone)]
pub enum EntryKind {
    Command(String, EntryId),
    CheckBox(String, EntryId, bool),
    RadioButton(String, EntryId, bool),
    SubMenu(String, EntryId),
    Separator,
}

impl EntryKind {
    pub fn is_separator(&self) -> (b: bool)
        ensures
            b == (*self is Separator),
    {
        match *self {
            EntryKind::Separator => true,
            _ => false,
        }
    }

    /// The text of the entry; a separator has none.
    pub open spec fn text_spec(&self) -> Seq<char> {
        match *self {
            EntryKind::Command(s, _) => s@,
            EntryKind::CheckBox(s, _, _) => s@,
            EntryKind::RadioButton(s, _, _) => s@,
            EntryKind::SubMenu(s, _) => s@,
            EntryKind::Separator => Seq::empty(),
        }
    }

    pub fn text(&self) -> (text: &str)
        ensures
            text@ == self.text_spec(),
    {
        match self {
            EntryKind::Command(s, _) => s.as_str(),
            EntryKind::CheckBox(s, _, _) => s.as_str(),
            EntryKind::RadioButton(s, _, _) => s.as_str(),
            EntryKind::SubMenu(s, _) => s.as_str(),
            EntryKind::Separator => {
                proof {
                    reveal_strlit("");
                }
                assert(""@ =~= Seq::<char>::empty());
                ""
            },
        }
    }

    /// What the entry stands for; a separator stands for nothing.
    pub open spec fn id_spec(&self) -> Option<EntryId> {
        match *self {
            EntryKind::Command(_, id) => Some(id),
            EntryKind::CheckBox(_, id, _) => Some(id),
            EntryKind::RadioButton(_, id, _) => Some(id),
            EntryKind::SubMenu(_, id) => Some(id),
            EntryKind::Separator => None,
        }
    }

    pub fn id(&self) -> (id: Option<EntryId>)
        ensures
            id == self.id_spec(),
    {
        match self {
            EntryKind::Command(_, id) => Some(*id),
            EntryKind::CheckBox(_, id, _) => Some(*id),
            EntryKind::RadioButton(_, id, _) => Some(*id),
            EntryKind::SubMenu(_, id) => Some(*id),
            EntryKind::Separator => None,
        }
    }
}

/// What travels through the tree of views.
#[derive(Debug, Clone)]
pub enum Event {
    /// The region changed: paint it, after the pending updates that touch it.
    Render(Rectangle, UpdateMode),
    /// The region changed: paint it at once.
    RenderNoWait(Rectangle, UpdateMode),
    /// A view left the region: paint what lay under it.
    Expose(Rectangle),
    Gesture(GestureEvent),
    Keyboard(KeyboardEvent),
    Key(KeyKind),
    Open(Box<Info>),
    Invalid(Box<Info>),
    Remove(Box<Info>),
    Page(CycleDir),
    GoTo(usize),
    CropMargins(Box<Margin>),
    Chapter(CycleDir),
    Sort(SortMethod),
    ToggleSelectCategory(String),
    ToggleNegateCategory(String),
    ToggleNegateCategoryChildren(String),
    ResizeSummary(i32),
    Focus(Option<ViewId>),
    Select(EntryId),
    Submit(ViewId, String),
    /// A slider moved to a value, given as the bit pattern of a binary32.
    Slider(SliderId, u32, FingerStatus),
    ToggleNear(ViewId, Rectangle),
    Toggle(ViewId),
    Show(ViewId),
    Close(ViewId),
    Finished,
    ClockTick,
    Validate,
    Cancel,
    Back,
    Quit,
}

/// The side channel between a view and its parent.
pub type Bus = VecDeque<Event>;

/// The way to the main channel: views put events in, the event loop takes
/// them out.
#[derive(Debug)]
pub struct Hub {
    sent: Vec<Event>,
}

impl vstd::view::View for Hub {
    type V = Seq<Event>;

    closed spec fn view(&self) -> Seq<Event> {
        self.sent@
    }
}

impl Hub {
    pub fn new() -> (hub: Hub)
        ensures
            hub@ == Seq::<Event>::empty(),
    {
        Hub { sent: Vec::new() }
    }

    /// Puts an event behind those that wait.
    pub fn send(&mut self, evt: Event)
        ensures
            final(self)@ == old(self)@.push(evt),
    {
        self.sent.push(evt);
    }

    /// The number of events that wait.
    pub fn len(&self) -> (n: usize)
        ensures
            n == self@.len(),
    {
        self.sent.len()
    }

    /// Takes out the events that wait, oldest first.
    pub fn take(&mut self) -> (events: Vec<Event>)
        ensures
            events@ == old(self)@,
            final(self)@ == Seq::<Event>::empty(),
    {
        let mut events: Vec<Event> = Vec::new();
        std::mem::swap(&mut self.sent, &mut events);
        events
    }
}

/// A node of the tree of views: a rectangle of the display, the views that
/// lie on it, lowest first, and what makes the view the widget it is.
#[derive(Debug)]
pub struct Node<W> {
    pub rect: Rectangle,
    pub children: Vec<Node<W>>,
    pub widget: W,
}

/// A tree of views as a value.
pub struct Tree<W> {
    pub rect: Rectangle,
    pub children: Seq<Tree<W>>,
    pub widget: W,
}

/// The position of the first view of `views` that goes by the name `id`, or
/// the number of views where none does.
pub open spec fn position_of<V: View>(views: Seq<Tree<V>>, id: ViewId) -> int
    decreases views.len(),
{
    if views.len() == 0 {
        0
    } else if V::identity(views.first()) == Some(id) {
        0
    } else {
        1 + position_of(views.drop_first(), id)
    }
}

/// The position of the first child of `view` that goes by the name `id`;
/// `None` where no child does.
pub fn locate_by_id<V: View>(view: &Node<V>, id: ViewId) -> (index: Option<usize>)
    ensures
        index matches Some(i) ==> i == position_of(view@.children, id) && i < view@.children.len()
            && V::identity(view@.children[i as int]) == Some(id),
        index is None ==> position_of(view@.children, id) == view@.children.len(),
        index is None ==> forall|i: int|
            0 <= i < view@.children.len() ==> V::identity(#[trigger] view@.children[i]) != Some(id),
{
    proof {
        lemma_view(*view);
    }
    let ghost views = view@.children;
    let mut i: usize = 0;
    assert(views.skip(0) =~= views);
    while i < view.children.len()
        invariant
            i <= view.children.len(),
            views == view@.children,
            views.len() == view.children.len(),
            forall|j: int| 0 <= j < views.len() ==> #[trigger] views[j] == view.children[j]@,
            position_of(views, id) == i + position_of(views.skip(i as int), id),
            forall|j: int| 0 <= j < i ==> V::identity(#[trigger] views[j]) != Some(id),
        decreases view.children.len() - i,
    {
        let name = V::id(&view.children[i]);
        let found = match name {
            Some(name) => name == id,
            None => false,
        };
        assert(views.skip(i as int).first() == views[i as int]);
        if found {
            return Some(i);
        }
        assert(views.skip(i as int).drop_first() =~= views.skip(i + 1));
        i = i + 1;
    }
    None
}

/// What became of a floating view that was asked to show or to hide.
#[derive(Debug, Copy, Clone, Eq, PartialEq, Structural)]
pub enum Toggled {
    /// It was as asked already.
    Unchanged,
    /// It was among the children and is gone; its rectangle is exposed.
    Closed,
    /// It is not among the children and is to be made and put on top.
    Wanted,
}

/// The children, what was sent to the hub and the outcome when the floating
/// view that goes by the name `id` is asked to show (`Some(true)`), to hide
/// (`Some(false)`) or to switch (`None`).
pub open spec fn toggled<V: View>(children: Seq<Tree<V>>, id: ViewId, enable: Option<bool>) -> (
    Seq<Tree<V>>,
    Seq<Event>,
    Toggled,
) {
    let index = position_of(children, id);
    if index < children.len() {
        if enable == Some(true) {
            (children, Seq::empty(), Toggled::Unchanged)
        } else {
            (children.remove(index), seq![Event::Expose(children[index].rect)], Toggled::Closed)
        }
    } else if enable == Some(false) {
        (children, Seq::empty(), Toggled::Unchanged)
    } else {
        (children, Seq::empty(), Toggled::Wanted)
    }
}

/// Shows, hides or switches the floating view that goes by the name `id`,
/// as far as the tree can: a view that is to go is taken from the children,
/// and its rectangle is reported as exposed; a view that is to come is left
/// to the caller to make.
pub fn toggle_by_id<V: View>(
    view: &mut Node<V>,
    id: ViewId,
    enable: Option<bool>,
    hub: &mut Hub,
) -> (outcome: Toggled)
    ensures
        final(view)@ == (Tree {
            children: toggled(old(view)@.children, id, enable).0,
            ..old(view)@
        }),
        final(hub)@ == old(hub)@ + toggled(old(view)@.children, id, enable).1,
        outcome == toggled(old(view)@.children, id, enable).2,
{
    proof {
        lemma_view(*view);
    }
    let ghost start = view@;
    match locate_by_id(view, id) {
        Some(index) => {
            match enable {
                Some(true) => {
                    assert(hub@ + Seq::<Event>::empty() =~= hub@);
                    Toggled::Unchanged
                },
                _ => {
                    let ghost before = *view;
                    hub.send(Event::Expose(view.children[index].rect));
                    view.children.remove(index);
                    proof {
                        lemma_view(before);
                        lemma_view(before.children[index as int]);
                        lemma_view(*view);
                        assert(view@.children =~= start.children.remove(index as int));
                        assert(old(hub)@.push(Event::Expose(start.children[index as int].rect))
                            =~= old(hub)@ + seq![Event::Expose(start.children[index as int].rect)]);
                    }
                    Toggled::Closed
                },
            }
        },
        None => {
            assert(hub@ + Seq::<Event>::empty() =~= hub@);
            match enable {
                Some(false) => Toggled::Unchanged,
                _ => Toggled::Wanted,
            }
        },
    }
}

/// The tree that a node holds.
pub open spec fn tree_of<W>(node: Node<W>) -> Tree<W>
    decreases node, 0nat,
{
    Tree {
        rect: node.rect,
        children: trees_of(node.children@, node.children@.len()),
        widget: node.widget,
    }
}

/// The trees that the first `count` nodes hold.
pub open spec fn trees_of<W>(nodes: Seq<Node<W>>, count: nat) -> Seq<Tree<W>>
    decreases nodes, count,
{
    if count == 0 || count > nodes.len() {
        Seq::empty()
    } else {
        trees_of(nodes, (count - 1) as nat).push(tree_of(nodes[count - 1]))
    }
}

impl<W> vstd::view::View for Node<W> {
    type V = Tree<W>;

    open spec fn view(&self) -> Tree<W> {
        tree_of(*self)
    }
}

/// `trees_of` holds, in order, the tree of each of the first `count` nodes.
pub proof fn lemma_trees_of<W>(nodes: Seq<Node<W>>, count: nat)
    requires
        count <= nodes.len(),
    ensures
        trees_of(nodes, count).len() == count,
        forall|i: int| 0 <= i < count ==> #[trigger] trees_of(nodes, count)[i] == nodes[i]@,
    decreases count,
{
    if count > 0 {
        lemma_trees_of(nodes, (count - 1) as nat);
    }
}

/// The view of a node is the node with each child replaced by its view.
pub proof fn lemma_view<W>(node: Node<W>)
    ensures
        node@.rect == node.rect,
        node@.widget == node.widget,
        node@.children.len() == node.children.len(),
        forall|i: int|
            0 <= i < node.children.len() ==> #[trigger] node@.children[i] == node.children[i]@,
{
    lemma_trees_of(node.children@, node.children@.len());
}

impl<W> Node<W> {
    /// A view without children.
    pub fn leaf(rect: Rectangle, widget: W) -> (node: Node<W>)
        ensures
            node@ == (Tree { rect, children: Seq::empty(), widget }),
    {
        Node { rect, children: Vec::new(), widget }
    }

    /// The number of children.
    pub fn len(&self) -> (n: usize)
        ensures
            n == self@.children.len(),
    {
        proof {
            lemma_view(*self);
        }
        self.children.len()
    }

    /// The child at `index`.
    pub fn child(&self, index: usize) -> (child: &Node<W>)
        requires
            index < self@.children.len(),
        ensures
            child@ == self@.children[index as int],
    {
        proof {
            lemma_view(*self);
        }
        &self.children[index]
    }
}

/// What a widget has to offer to be a view of the tree.
///
/// The functions `handled`, `painted`, `skips`, `background` and `identity`
/// are the widget's account of itself, over which the contracts of the tree
/// are stated. A widget that is verified defines them and proves that its
/// methods do as they say; for any other they are left open.
pub trait View: Sized {
    /// What the handlers share besides the tree.
    type Context;

    /// The display surface that the widgets paint on.
    type Surface: Framebuffer;

    /// The fonts and images that painting draws on.
    type Fonts;

    /// What `handle_event` does: the view afterwards, whether it captured the
    /// event, what it sent to the hub and put on the bus, and the context
    /// afterwards.
    open spec fn handled(tree: Tree<Self>, evt: Event, context: Self::Context) -> Handled<Self> {
        arbitrary()
    }

    /// What `render` leaves on the surface and in the fonts.
    open spec fn painted(tree: Tree<Self>, fb: Self::Surface, fonts: Self::Fonts) -> (
        Self::Surface,
        Self::Fonts,
    ) {
        arbitrary()
    }

    /// What `might_skip` answers.
    open spec fn skips(tree: Tree<Self>, evt: Event) -> bool {
        false
    }

    /// What `is_background` answers.
    open spec fn background(tree: Tree<Self>) -> bool {
        false
    }

    /// What `id` answers.
    open spec fn identity(tree: Tree<Self>) -> Option<ViewId> {
        None
    }

    /// Handles an event; returns whether the view captured it.
    fn handle_event(
        view: &mut Node<Self>,
        evt: &Event,
        hub: &mut Hub,
        bus: &mut Bus,
        context: &mut Self::Context,
    ) -> (captured: bool)
        ensures
            final(view)@ == Self::handled(old(view)@, *evt, *old(context)).tree,
            captured == Self::handled(old(view)@, *evt, *old(context)).captured,
            final(hub)@ == old(hub)@ + Self::handled(old(view)@, *evt, *old(context)).hub,
            final(bus)@ == old(bus)@ + Self::handled(old(view)@, *evt, *old(context)).bus,
            *final(context) == Self::handled(old(view)@, *evt, *old(context)).context,
    ;

    /// Paints the view.
    fn render(view: &Node<Self>, fb: &mut Self::Surface, fonts: &mut Self::Fonts)
        ensures
            (*final(fb), *final(fonts)) == Self::painted(view@, *old(fb), *old(fonts)),
    ;

    /// Whether the event can be kept from the view and from what lies on it.
    /// A view that has no say answers `false`.
    fn might_skip(view: &Node<Self>, evt: &Event) -> (skip: bool)
        ensures
            skip == Self::skips(view@, *evt),
    ;

    /// Whether the view is an opaque background. A view that has no say
    /// answers `false`.
    fn is_background(view: &Node<Self>) -> (background: bool)
        ensures
            background == Self::background(view@),
    ;

    /// The name of the view, if it has one.
    fn id(view: &Node<Self>) -> (id: Option<ViewId>)
        ensures
            id == Self::identity(view@),
    ;
}

/// Sends an event on its way through the tree.
///
/// Delivery starts at the highest z-level, so that a view cannot capture a
/// gesture that was made on a view above it; the views see to the rest: a
/// popup captures every tap inside its rectangle. A child sends events to the
/// main channel through the hub and talks to its parent through the bus.
pub fn handle_event<V: View>(
    view: &mut Node<V>,
    evt: &Event,
    hub: &mut Hub,
    parent_bus: &mut Bus,
    context: &mut V::Context,
) -> (captured: bool)
    ensures
        final(view)@ == dispatch(old(view)@, *evt, *old(context)).tree,
        captured == dispatch(old(view)@, *evt, *old(context)).captured,
        final(hub)@ == old(hub)@ + dispatch(old(view)@, *evt, *old(context)).hub,
        final(parent_bus)@ == old(parent_bus)@ + dispatch(old(view)@, *evt, *old(context)).bus,
        *final(context) == dispatch(old(view)@, *evt, *old(context)).context,
    decreases *old(view),
{
    let ghost tree = view@;
    let ghost context0 = *context;
    let ghost hub0 = hub@;
    let ghost bus0 = parent_bus@;
    proof {
        lemma_view(*view);
    }
    if view.children.len() == 0 {
        return V::handle_event(view, evt, hub, parent_bus, context);
    }
    if V::might_skip(view, evt) {
        assert(hub@ + Seq::<Event>::empty() =~= hub@);
        assert(parent_bus@ + Seq::<Event>::empty() =~= parent_bus@);
        return false;
    }
    let mut captured = false;
    let mut child_bus: Bus = VecDeque::new();
    let mut i: usize = view.children.len();
    proof {
        assert(hub0 + Seq::<Event>::empty() =~= hub0);
    }
    while i > 0 && !captured
        invariant
            i <= view.children.len(),
            view.children.len() == old(view).children.len(),
            view.rect == old(view).rect,
            view.widget == old(view).widget,
            tree == old(view)@,
            forall|j: int| 0 <= j < i ==> view.children[j] == old(view).children[j],
            forall|j: int|
                0 <= j < view.children.len() ==> #[trigger] view.children[j]@ == sweep(
                    tree,
                    *evt,
                    context0,
                    i as int,
                ).children[j],
            captured == sweep(tree, *evt, context0, i as int).captured,
            hub@ == hub0 + sweep(tree, *evt, context0, i as int).hub,
            child_bus@ == sweep(tree, *evt, context0, i as int).bus,
            *context == sweep(tree, *evt, context0, i as int).context,
        decreases i,
    {
        i = i - 1;
        let ghost above = sweep(tree, *evt, context0, i + 1);
        let ghost before = *view;
        proof {
            lemma_view(*old(view));
            lemma_sweep_spares_lower(tree, *evt, context0, i + 1);
            assert(decreases_to!(*old(view) => old(view).children[i as int]));
            assert(view.children[i as int]@ == tree.children[i as int]);
        }
        captured = handle_event(&mut view.children[i], evt, hub, &mut child_bus, context);
        proof {
            let child = route(tree.children[i as int], *evt, above.context);
            let now = sweep(tree, *evt, context0, i as int);
            assert(now.children == above.children.update(i as int, child.outcome.tree));
            assert(hub@ =~= hub0 + now.hub);
            assert forall|j: int| 0 <= j < view.children.len() implies #[trigger] view.children[j]@
                == now.children[j] by {
                if j != i {
                    assert(view.children[j] == before.children[j]);
                }
            }
        }
    }
    let ghost swept = sweep(tree, *evt, context0, 0);
    let ghost mid = Tree { children: swept.children, ..tree };
    proof {
        if captured {
            lemma_capture_ends_sweep(tree, *evt, context0, i as int, 0);
        }
        lemma_view(*view);
        lemma_sweep_spares_lower(tree, *evt, context0, 0);
        assert(view@.children =~= swept.children);
        assert(view@ == mid);
    }
    let ghost events = child_bus@;
    let ghost hub1 = hub@;
    let mut kept: Bus = VecDeque::new();
    proof {
        assert(events.take(0) =~= Seq::<Event>::empty());
        assert(hub1 + Seq::<Event>::empty() =~= hub1);
        assert(bus0 + Seq::<Event>::empty() =~= bus0);
        assert(events.skip(0) =~= events);
    }
    while child_bus.len() > 0
        invariant
            child_bus@.len() <= events.len(),
            child_bus@ == events.skip(events.len() - child_bus@.len()),
            view@ == relay(mid, events.take(events.len() - child_bus@.len()), swept.context).tree,
            hub@ == hub1 + relay(
                mid,
                events.take(events.len() - child_bus@.len()),
                swept.context,
            ).hub,
            parent_bus@ == bus0 + relay(
                mid,
                events.take(events.len() - child_bus@.len()),
                swept.context,
            ).bus,
            kept@ == relay(mid, events.take(events.len() - child_bus@.len()), swept.context).kept,
            *context == relay(
                mid,
                events.take(events.len() - child_bus@.len()),
                swept.context,
            ).context,
        decreases child_bus@.len(),
    {
        let ghost k = events.len() - child_bus@.len();
        let ghost done = relay(mid, events.take(k), swept.context);
        let child_evt = child_bus.pop_front().unwrap();
        proof {
            assert(child_evt == events[k]);
            assert(child_bus@ =~= events.skip(k + 1));
            assert(events.take(k + 1).drop_last() =~= events.take(k));
            assert(events.take(k + 1).last() == events[k]);
        }
        let handled = V::handle_event(view, &child_evt, hub, parent_bus, context);
        proof {
            let last = V::handled(done.tree, events[k], done.context);
            assert(hub@ =~= hub1 + (done.hub + last.hub));
            assert(parent_bus@ =~= bus0 + (done.bus + last.bus));
        }
        if !handled {
            kept.push_back(child_evt);
        }
    }
    proof {
        assert(events.take(events.len() as int) =~= events);
    }
    let ghost relayed = relay(mid, events, swept.context);
    parent_bus.append(&mut kept);
    let own = V::handle_event(view, evt, hub, parent_bus, context);
    proof {
        let last = V::handled(relayed.tree, *evt, relayed.context);
        assert(hub@ =~= hub0 + (swept.hub + relayed.hub + last.hub));
        assert(parent_bus@ =~= bus0 + (relayed.bus + relayed.kept + last.bus));
    }
    captured || own
}

/// Paints anew what the change of the region `rect` calls for: the view whose
/// rectangle is the region and every view after it in the tree that overlaps
/// the region, which grows to hold each view that is painted. Before a view
/// is painted, the pending updates that touch it are waited for.
pub fn render<V: View>(
    view: &Node<V>,
    rect: &mut Rectangle,
    fb: &mut V::Surface,
    fonts: &mut V::Fonts,
    updating: &mut FnvHashMap<u32, Rectangle>,
)
    ensures
        *final(rect) == rendered(view@, *old(rect), *old(fb), *old(fonts), old(updating)@, true).canvas.rect,
        *final(fb) == rendered(view@, *old(rect), *old(fb), *old(fonts), old(updating)@, true).canvas.fb,
        *final(fonts) == rendered(view@, *old(rect), *old(fb), *old(fonts), old(updating)@, true).canvas.fonts,
        final(updating)@ == rendered(view@, *old(rect), *old(fb), *old(fonts), old(updating)@, true).canvas.updating,
{
    let mut above = false;
    render_aux(view, rect, fb, fonts, &mut above, true, updating);
}

/// Paints as `render` does, without waiting for any pending update.
pub fn render_no_wait<V: View>(
    view: &Node<V>,
    rect: &mut Rectangle,
    fb: &mut V::Surface,
    fonts: &mut V::Fonts,
    updating: &mut FnvHashMap<u32, Rectangle>,
)
    ensures
        *final(rect) == rendered(view@, *old(rect), *old(fb), *old(fonts), old(updating)@, false).canvas.rect,
        *final(fb) == rendered(view@, *old(rect), *old(fb), *old(fonts), old(updating)@, false).canvas.fb,
        *final(fonts) == rendered(view@, *old(rect), *old(fb), *old(fonts), old(updating)@, false).canvas.fonts,
        final(updating)@ == rendered(view@, *old(rect), *old(fb), *old(fonts), old(updating)@, false).canvas.updating,
{
    let mut above = false;
    render_aux(view, rect, fb, fonts, &mut above, false, updating);
}

// Nothing is painted until the walk comes to the view that the change started
// from. From there on each view is held against the region: a view that
// overlaps it is painted, and the region absorbs the view's rectangle.
fn render_aux<V: View>(
    view: &Node<V>,
    rect: &mut Rectangle,
    fb: &mut V::Surface,
    fonts: &mut V::Fonts,
    above: &mut bool,
    wait: bool,
    updating: &mut FnvHashMap<u32, Rectangle>,
)
    ensures
        (Canvas::<V> {
            rect: *final(rect),
            fb: *final(fb),
            fonts: *final(fonts),
            updating: final(updating)@,
            above: *final(above),
        }) == walk(
            view@,
            Canvas {
                rect: *old(rect),
                fb: *old(fb),
                fonts: *old(fonts),
                updating: old(updating)@,
                above: *old(above),
            },
            Pass::Render { wait },
        ).canvas,
    decreases view,
{
    let ghost pass = Pass::Render { wait };
    let ghost start = Canvas::<V> {
        rect: *rect,
        fb: *fb,
        fonts: *fonts,
        updating: updating@,
        above: *above,
    };
    proof {
        lemma_view(*view);
    }
    if !*above && view.rect == *rect {
        *above = true;
    }
    if *above && view.rect.overlaps(rect) {
        if wait {
            wait_for_overlapping(&view.rect, &*fb, updating);
        }
        V::render(view, fb, fonts);
        rect.absorb(&view.rect);
    }
    let ghost here = visit(view@, start, pass);
    let mut i: usize = 0;
    while i < view.children.len()
        invariant
            i <= view.children.len(),
            pass == (Pass::Render { wait }),
            (Canvas::<V> {
                rect: *rect,
                fb: *fb,
                fonts: *fonts,
                updating: updating@,
                above: *above,
            }) == walk_children(view@, here, pass, i as int).canvas,
        decreases view.children.len() - i,
    {
        proof {
            lemma_view(*view);
        }
        render_aux(&view.children[i], rect, fb, fonts, above, wait, updating);
        i = i + 1;
    }
}

/// Paints what lay under a view that left the tree. When a floating window
/// goes, it leaves a crack: every leaf and every background that overlaps the
/// region `rect` is painted, after the pending updates that touch it, and the
/// region grows to hold each view that is painted.
pub fn fill_crack<V: View>(
    view: &Node<V>,
    rect: &mut Rectangle,
    fb: &mut V::Surface,
    fonts: &mut V::Fonts,
    updating: &mut FnvHashMap<u32, Rectangle>,
)
    ensures
        *final(rect) == filled(view@, *old(rect), *old(fb), *old(fonts), old(updating)@).canvas.rect,
        *final(fb) == filled(view@, *old(rect), *old(fb), *old(fonts), old(updating)@).canvas.fb,
        *final(fonts) == filled(view@, *old(rect), *old(fb), *old(fonts), old(updating)@).canvas.fonts,
        final(updating)@ == filled(view@, *old(rect), *old(fb), *old(fonts), old(updating)@).canvas.updating,
{
    fill_crack_aux(view, rect, fb, fonts, updating);
}

fn fill_crack_aux<V: View>(
    view: &Node<V>,
    rect: &mut Rectangle,
    fb: &mut V::Surface,
    fonts: &mut V::Fonts,
    updating: &mut FnvHashMap<u32, Rectangle>,
)
    ensures
        (Canvas::<V> {
            rect: *final(rect),
            fb: *final(fb),
            fonts: *final(fonts),
            updating: final(updating)@,
            above: false,
        }) == walk(
            view@,
            Canvas {
                rect: *old(rect),
                fb: *old(fb),
                fonts: *old(fonts),
                updating: old(updating)@,
                above: false,
            },
            Pass::FillCrack,
        ).canvas,
    decreases view,
{
    let ghost pass = Pass::FillCrack;
    let ghost start = Canvas::<V> {
        rect: *rect,
        fb: *fb,
        fonts: *fonts,
        updating: updating@,
        above: false,
    };
    proof {
        lemma_view(*view);
    }
    if (view.children.len() == 0 || V::is_background(view)) && view.rect.overlaps(rect) {
        wait_for_overlapping(&view.rect, &*fb, updating);
        V::render(view, fb, fonts);
        rect.absorb(&view.rect);
    }
    let ghost here = visit(view@, start, pass);
    let mut i: usize = 0;
    while i < view.children.len()
        invariant
            i <= view.children.len(),
            pass == Pass::FillCrack,
            (Canvas::<V> {
                rect: *rect,
                fb: *fb,
                fonts: *fonts,
                updating: updating@,
                above: false,
            }) == walk_children(view@, here, pass, i as int).canvas,
        decreases view.children.len() - i,
    {
        proof {
            lemma_view(*view);
        }
        fill_crack_aux(&view.children[i], rect, fb, fonts, updating);
        i = i + 1;
    }
}

} // verus!
