//! The bar at the top of the library browser: a search icon, the name of
//! the sort order, the clock, and the icons of the frontlight and of the main
//! menu.

use vstd::prelude::*;
use vstd::view::View as _;
use crate::framebuffer::{Simulated, UpdateMode};
use crate::geom::{Point, Rectangle};
use crate::metadata::SortMethod;
use crate::view::dispatch::Handled;
use crate::view::{Align, Bus, Event, Hub, Node, Tree, View, ViewId};

verus! {

/// What lies on the bar.
#[derive(Debug)]
pub enum Part {
    /// An icon, with the event that a tap on it sends.
    Icon { name: String, align: Align, event: Event },
    /// The name of the sort order.
    SortLabel { text: String },
    Clock,
}

/// A child of the bar.
#[derive(Debug)]
pub struct TopBarChild {
    pub rect: Rectangle,
    pub part: Part,
}

/// The bar and its five children, from left to right but for the clock,
/// which comes third and stands to the right of the sort label.
#[derive(Debug)]
pub struct TopBar {
    pub rect: Rectangle,
    pub children: Vec<TopBarChild>,
}

/// The rectangles of the five children of a bar on `rect`, where the clock
/// is `clock_width` wide: squares as high as the bar at both ends, the clock
/// to the left of the two squares on the right, and the sort label in
/// between.
pub open spec fn layout(rect: Rectangle, clock_width: int) -> Seq<(int, int, int, int)> {
    let side = rect.max.y - rect.min.y;
    seq![
        (rect.min.x as int, rect.min.y as int, rect.min.x + side, rect.min.y + side),
        (rect.min.x + side, rect.min.y as int, rect.max.x - 2 * side - clock_width, rect.max.y as int),
        (rect.max.x - 2 * side - clock_width, rect.max.y - side, rect.max.x - 2 * side, rect.max.y as int),
        (rect.max.x - 2 * side, rect.max.y - side, rect.max.x - side, rect.max.y as int),
        (rect.max.x - side, rect.max.y - side, rect.max.x as int, rect.max.y as int),
    ]
}

/// Whether the rectangle has the given edges.
pub open spec fn has_edges(rect: Rectangle, edges: (int, int, int, int)) -> bool {
    rect.min.x == edges.0 && rect.min.y == edges.1 && rect.max.x == edges.2 && rect.max.y
        == edges.3
}

/// Whether the number is one of `i32`.
pub open spec fn in_range(n: int) -> bool {
    i32::MIN <= n <= i32::MAX
}

/// Whether the bar on `rect` can be laid out in `i32`: the height of the
/// rectangle, three times that height, and each coordinate that lies one, two
/// or three heights or the width of the clock from a corner are in range.
pub open spec fn can_lay_out(rect: Rectangle, clock_width: int) -> bool {
    let side = rect.max.y - rect.min.y;
    &&& in_range(side)
    &&& in_range(3 * side)
    &&& in_range(rect.min.x + side)
    &&& in_range(rect.min.y + side)
    &&& in_range(rect.max.y - side)
    &&& in_range(rect.max.x - side)
    &&& in_range(rect.max.x - 2 * side)
    &&& in_range(rect.max.x - 3 * side)
    &&& in_range(rect.max.x - 2 * side - clock_width)
}

impl TopBar {
    /// Whether the bar has its five children, the search icon first and the
    /// sort label second.
    pub open spec fn wf(&self) -> bool {
        &&& self.children.len() == 5
        &&& self.children[0].part is Icon
        &&& self.children[1].part is SortLabel
    }

    /// The name of the first icon.
    pub open spec fn icon_name(&self) -> Seq<char> {
        self.children[0].part->name@
    }

    /// The text of the sort label.
    pub open spec fn sort_text(&self) -> Seq<char> {
        self.children[1].part->text@
    }

    /// Whether the bar on `rect`, with a clock that is `clock_width` wide,
    /// can be laid out.
    pub fn fits(rect: &Rectangle, clock_width: i32) -> (b: bool)
        ensures
            b == can_lay_out(*rect, clock_width as int),
    {
        let low: i64 = -0x8000_0000;
        let high: i64 = 0x7fff_ffff;
        let side: i64 = rect.max.y as i64 - rect.min.y as i64;
        let min_x: i64 = rect.min.x as i64;
        let min_y: i64 = rect.min.y as i64;
        let max_x: i64 = rect.max.x as i64;
        let max_y: i64 = rect.max.y as i64;
        let width: i64 = clock_width as i64;
        low <= side && side <= high && low <= 3 * side && 3 * side <= high && low <= min_x + side
            && min_x + side <= high && low <= min_y + side && min_y + side <= high && low <= max_y
            - side && max_y - side <= high && low <= max_x - side && max_x - side <= high && low
            <= max_x - 2 * side && max_x - 2 * side <= high && low <= max_x - 3 * side && max_x - 3
            * side <= high && low <= max_x - 2 * side - width && max_x - 2 * side - width <= high
    }

    /// The bar on `rect` for a catalog in the order `sort_method`, with a
    /// clock that is `clock_width` wide.
    pub fn new(rect: Rectangle, sort_method: SortMethod, clock_width: i32) -> (bar: TopBar)
        requires
            can_lay_out(rect, clock_width as int),
        ensures
            bar.wf(),
            bar.rect == rect,
            forall|i: int|
                0 <= i < 5 ==> has_edges(
                    #[trigger] bar.children[i].rect,
                    layout(rect, clock_width as int)[i],
                ),
            bar.icon_name() == "search"@,
            bar.children[0].part->event == Event::Toggle(ViewId::SearchBar),
            bar.sort_text() == sort_method.label_spec(),
            bar.children[2].part is Clock,
            bar.children[3].part matches Part::Icon { name, event, .. } && name@ == "frontlight"@
                && event == Event::Show(ViewId::FrontlightMenu),
            bar.children[4].part matches Part::Icon { name, event, .. } && name@ == "menu"@
                && event == Event::ToggleNear(ViewId::MainMenu, bar.children[4].rect),
    {
        let side: i32 = rect.max.y - rect.min.y;
        let mut children: Vec<TopBarChild> = Vec::new();
        children.push(
            TopBarChild {
                rect: Rectangle {
                    min: rect.min,
                    max: Point { x: rect.min.x + side, y: rect.min.y + side },
                },
                part: Part::Icon {
                    name: "search".to_owned(),
                    align: Align::Center,
                    event: Event::Toggle(ViewId::SearchBar),
                },
            },
        );
        let clock_rect = Rectangle {
            min: Point { x: rect.max.x - 2 * side - clock_width, y: rect.max.y - side },
            max: Point { x: rect.max.x - 2 * side, y: rect.max.y },
        };
        children.push(
            TopBarChild {
                rect: Rectangle {
                    min: Point { x: rect.min.x + side, y: rect.min.y },
                    max: Point { x: clock_rect.min.x, y: rect.max.y },
                },
                part: Part::SortLabel { text: sort_method.label().to_owned() },
            },
        );
        children.push(TopBarChild { rect: clock_rect, part: Part::Clock });
        children.push(
            TopBarChild {
                rect: Rectangle {
                    min: Point { x: rect.max.x - 2 * side, y: rect.max.y - side },
                    max: Point { x: rect.max.x - side, y: rect.max.y },
                },
                part: Part::Icon {
                    name: "frontlight".to_owned(),
                    align: Align::Center,
                    event: Event::Show(ViewId::FrontlightMenu),
                },
            },
        );
        let menu_rect = Rectangle {
            min: Point { x: rect.max.x - side, y: rect.max.y - side },
            max: rect.max,
        };
        children.push(
            TopBarChild {
                rect: menu_rect,
                part: Part::Icon {
                    name: "menu".to_owned(),
                    align: Align::Center,
                    event: Event::ToggleNear(ViewId::MainMenu, menu_rect),
                },
            },
        );
        TopBar { rect, children }
    }

    /// Shows the way home on the first icon while the search bar is on the
    /// screen, and the way to the search bar otherwise, and asks for the icon
    /// to be painted.
    pub fn update_icon(&mut self, search_visible: bool, hub: &mut Hub)
        requires
            old(self).wf(),
        ensures
            final(self).wf(),
            final(self).rect == old(self).rect,
            final(self).icon_name() == if search_visible {
                "home"@
            } else {
                "search"@
            },
            final(self).children[0].rect == old(self).children[0].rect,
            final(self).children[0].part->align == old(self).children[0].part->align,
            final(self).children[0].part->event == old(self).children[0].part->event,
            forall|i: int| 1 <= i < 5 ==> final(self).children[i] == old(self).children[i],
            final(hub)@ == old(hub)@.push(
                Event::Render(old(self).children[0].rect, UpdateMode::Gui),
            ),
    {
        let next = if search_visible {
            "home".to_owned()
        } else {
            "search".to_owned()
        };
        let child = &mut self.children[0];
        match &mut child.part {
            Part::Icon { name, .. } => {
                *name = next;
            },
            _ => {},
        }
        hub.send(Event::Render(self.children[0].rect, UpdateMode::Gui));
    }

    /// Shows the name of the order `sort_method` on the sort label, and asks
    /// for the label to be painted.
    pub fn update_sort_label(&mut self, sort_method: SortMethod, hub: &mut Hub)
        requires
            old(self).wf(),
        ensures
            final(self).wf(),
            final(self).rect == old(self).rect,
            final(self).sort_text() == sort_method.label_spec(),
            final(self).children[1].rect == old(self).children[1].rect,
            forall|i: int|
                0 <= i < 5 && i != 1 ==> final(self).children[i] == old(self).children[i],
            final(hub)@ == old(hub)@.push(
                Event::Render(old(self).children[1].rect, UpdateMode::Gui),
            ),
    {
        let next = sort_method.label().to_owned();
        let child = &mut self.children[1];
        match &mut child.part {
            Part::SortLabel { text } => {
                *text = next;
            },
            _ => {},
        }
        hub.send(Event::Render(self.children[1].rect, UpdateMode::Gui));
    }
}

/// The bar as a view: it leaves every event alone and paints nothing, for
/// what is seen of it is what lies on it.
impl View for TopBar {
    type Context = ();

    type Surface = Simulated;

    type Fonts = ();

    open spec fn handled(tree: Tree<TopBar>, evt: Event, context: ()) -> Handled<TopBar> {
        Handled { tree, captured: false, hub: Seq::empty(), bus: Seq::empty(), context }
    }

    open spec fn painted(tree: Tree<TopBar>, fb: Simulated, fonts: ()) -> (Simulated, ()) {
        (fb, fonts)
    }

    fn handle_event(
        view: &mut Node<TopBar>,
        evt: &Event,
        hub: &mut Hub,
        bus: &mut Bus,
        context: &mut (),
    ) -> (captured: bool) {
        assert(hub@ + Seq::<Event>::empty() =~= hub@);
        assert(bus@ + Seq::<Event>::empty() =~= bus@);
        false
    }

    fn render(view: &Node<TopBar>, fb: &mut Simulated, fonts: &mut ()) {
    }

    fn might_skip(view: &Node<TopBar>, evt: &Event) -> (skip: bool) {
        false
    }

    fn is_background(view: &Node<TopBar>) -> (background: bool) {
        false
    }

    fn id(view: &Node<TopBar>) -> (id: Option<ViewId>) {
        None
    }
}

} // verus!
